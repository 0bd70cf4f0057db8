//! Demand rows of a clause's where-bound local functions, computed as a
//! greatest fixed point so that demand carried through a local recursion
//! (an accumulator loop such as `reverse`'s `go`) is recognised.
//!
//! Every group of equations starts from the deepest demand its parameter
//! patterns allow; each round recomputes every group's rows under the
//! current rows of all groups and meets them with the previous ones, so
//! the rows only descend and the iteration settles. It is cut off after
//! `LOCAL_ROUNDS` rounds, a bound no program reaches.

use vstd::prelude::*;
use crate::tir::{TLocalDef, TPattern};
use crate::demand::{DM, Demand, Rows, RM, LocalRows, subsumes, LRM, LocalEnv, NameSet, deep_of, deep_of_ty, opt_meet_spec, opt_meet,
    row_model, opt_model, opt_row_model, rows_same, opt_rows_same, copy_row};
use crate::structured::{RCx, RowCx, cx_model, dx, pattern_demand, dx_exec, pattern_demand_exec};
use crate::params::{fn_groups, groups_model, indices_ok, fn_groups_exec, lemma_fn_groups_nonempty};

verus! {

broadcast use vstd::string::group_string_axioms;

/// The rounds after which the iteration stops.
pub const LOCAL_ROUNDS: u64 = 0xffff_ffff_ffff_ffff;

/// The most patterns any equation of a group has.
pub open spec fn max_pats(ds: Seq<TLocalDef>) -> nat
    decreases ds.len(),
{
    if ds.len() == 0 {
        0
    } else {
        let m = max_pats(ds.drop_last());
        let k = ds.last().patterns@.len();
        if k > m { k } else { m }
    }
}

/// The optimistic seed of parameter `i`: decided by the first equation
/// that binds it with a variable (its type's deep demand), a list pattern
/// (every element) or a tuple pattern (every field); `Head` if none does.
pub open spec fn seed_param(ds: Seq<TLocalDef>, i: nat) -> DM
    decreases ds.len(),
{
    if ds.len() == 0 {
        DM::Head
    } else if i < ds[0].patterns@.len() {
        match ds[0].patterns@[i as int] {
            TPattern::Var(_, ty) => deep_of(ty),
            TPattern::Constructor { name, args: _ } => if name@ == ":"@ || name@ == "[]"@ {
                DM::Elems(Box::new(DM::Head))
            } else {
                seed_param(ds.drop_first(), i)
            },
            TPattern::Tuple(ps) => DM::Fields(Seq::new(ps@.len(), |_j: int| Some(DM::Head))),
            _ => seed_param(ds.drop_first(), i),
        }
    } else {
        seed_param(ds.drop_first(), i)
    }
}

/// The seed row of a group.
pub open spec fn seed_row(ds: Seq<TLocalDef>) -> Seq<Option<DM>> {
    Seq::new(max_pats(ds), |i: int| Some(seed_param(ds, i as nat)))
}

/// The seed rows of a group: the seed row, again as deep row when the
/// result type has a deep demand beyond WHNF, and that demand.
pub open spec fn seed_rows(ds: Seq<TLocalDef>) -> LRM {
    let rdeep = deep_of(ds[0].body.ty);
    (seed_row(ds), if rdeep != DM::Head { Some(seed_row(ds)) } else { None }, rdeep)
}

/// The seeds of all groups, a later group of a name replacing an earlier.
pub open spec fn seed_env(gs: Seq<(Seq<char>, Seq<TLocalDef>)>) -> Map<Seq<char>, LRM>
    decreases gs.len(),
{
    if gs.len() == 0 {
        Map::empty()
    } else {
        seed_env(gs.drop_last()).insert(gs.last().0, seed_rows(gs.last().1))
    }
}

/// One equation's parameter row under result demand `rd`: each
/// parameter pattern's demand given what the body demands of its
/// variables.
pub open spec fn eq_row(cx: RCx, d: TLocalDef, arity: nat, rd: DM) -> Seq<Option<DM>> {
    let m = dx(cx, d.body, rd, true);
    Seq::new(arity, |i: int| if i < d.patterns@.len() { pattern_demand(d.patterns@[i], m) } else { None })
}

/// Two rows met position by position (as long as the shorter).
pub open spec fn zip_meet(a: Seq<Option<DM>>, b: Seq<Option<DM>>) -> Seq<Option<DM>> {
    Seq::new(if a.len() <= b.len() { a.len() } else { b.len() }, |i: int| opt_meet_spec(a[i], b[i]))
}

/// A group's row under `rd`: what every equation guarantees.
pub open spec fn rows_under(cx: RCx, ds: Seq<TLocalDef>, arity: nat, rd: DM) -> Seq<Option<DM>>
    decreases ds.len(),
{
    if ds.len() == 0 {
        Seq::empty()
    } else if ds.len() == 1 {
        eq_row(cx, ds[0], arity, rd)
    } else {
        zip_meet(rows_under(cx, ds.drop_last(), arity, rd), eq_row(cx, ds.last(), arity, rd))
    }
}

/// One group recomputed under the current rows and met with its previous
/// rows; whether they changed.
pub open spec fn group_step(rows: RM, inl: Set<Seq<char>>, g: (Seq<char>, Seq<TLocalDef>), env: Map<Seq<char>, LRM>) -> (Map<Seq<char>, LRM>, bool) {
    if !env.contains_key(g.0) {
        (env, false)
    } else {
        let e = env[g.0];
        let arity = max_pats(g.1);
        let cx = (rows, env, inl);
        let run = zip_meet(e.0, rows_under(cx, g.1, arity, DM::Head));
        let deep = match e.1 {
            Some(p) => if e.2 != DM::Head { Some(zip_meet(p, rows_under(cx, g.1, arity, e.2))) } else { None },
            None => None,
        };
        if e.0 != run || e.1 != deep {
            (env.insert(g.0, (run, deep, e.2)), true)
        } else {
            (env, false)
        }
    }
}

/// One round over the groups in order, each seeing the rows the earlier
/// ones left; whether any changed.
pub open spec fn local_round(rows: RM, inl: Set<Seq<char>>, gs: Seq<(Seq<char>, Seq<TLocalDef>)>, env: Map<Seq<char>, LRM>) -> (Map<Seq<char>, LRM>, bool)
    decreases gs.len(),
{
    if gs.len() == 0 {
        (env, false)
    } else {
        let (e1, c1) = local_round(rows, inl, gs.drop_last(), env);
        let (e2, c2) = group_step(rows, inl, gs.last(), e1);
        (e2, c1 || c2)
    }
}

/// Rounds until one changes nothing (at most `n`).
pub open spec fn local_fix(rows: RM, inl: Set<Seq<char>>, gs: Seq<(Seq<char>, Seq<TLocalDef>)>, env: Map<Seq<char>, LRM>, n: nat) -> Map<Seq<char>, LRM>
    decreases n,
{
    if n == 0 {
        env
    } else {
        let (e2, c) = local_round(rows, inl, gs, env);
        if c { local_fix(rows, inl, gs, e2, (n - 1) as nat) } else { e2 }
    }
}

/// The rows of the local functions among `wbs`.
pub open spec fn local_rows_of(rows: RM, inl: Set<Seq<char>>, wbs: Seq<TLocalDef>) -> Map<Seq<char>, LRM> {
    let gs = fn_groups(wbs);
    local_fix(rows, inl, gs, seed_env(gs), LOCAL_ROUNDS as nat)
}

// ---------------------------------------------------------------------
// Computed
// ---------------------------------------------------------------------

/// The equations at the given indices.
pub open spec fn defs_of(wbs: Seq<TLocalDef>, idx: Seq<usize>) -> Seq<TLocalDef> {
    Seq::new(idx.len(), |j: int| wbs[idx[j] as int])
}

pub open spec fn idx_ok(idx: Seq<usize>, n: nat) -> bool {
    forall|j: int| 0 <= j < idx.len() ==> #[trigger] idx[j] < n
}

fn max_pats_exec(wbs: &Vec<TLocalDef>, idx: &Vec<usize>) -> (r: usize)
    requires
        idx_ok(idx@, wbs@.len()),
    ensures
        r == max_pats(defs_of(wbs@, idx@)),
{
    let ghost ds = defs_of(wbs@, idx@);
    let mut r: usize = 0;
    let mut i: usize = 0;
    while i < idx.len()
        invariant
            i <= idx@.len(),
            ds == defs_of(wbs@, idx@),
            idx_ok(idx@, wbs@.len()),
            r == max_pats(ds.take(i as int)),
        decreases idx@.len() - i,
    {
        let ghost t = ds.take(i as int + 1);
        assert(t.drop_last() =~= ds.take(i as int));
        assert(t.last() == wbs@[idx@[i as int] as int]);
        let k = wbs[idx[i]].patterns.len();
        if k > r {
            r = k;
        }
        i = i + 1;
    }
    assert(ds.take(idx@.len() as int) =~= ds);
    r
}

fn all_head_fields(n: usize) -> (r: Vec<Option<Demand>>)
    ensures
        row_model(r@) == Seq::new(n as nat, |_j: int| Some(DM::Head)),
{
    let mut out: Vec<Option<Demand>> = Vec::new();
    let mut i: usize = 0;
    while i < n
        invariant
            i <= n,
            out@.len() == i,
            forall|j: int| 0 <= j < i ==> opt_model(#[trigger] out@[j]) == Some(DM::Head),
        decreases n - i,
    {
        out.push(Some(Demand::Head));
        i = i + 1;
    }
    assert(row_model(out@) =~= Seq::new(n as nat, |_j: int| Some(DM::Head)));
    out
}

fn seed_param_exec(wbs: &Vec<TLocalDef>, idx: &Vec<usize>, i: usize) -> (r: Demand)
    requires
        idx_ok(idx@, wbs@.len()),
    ensures
        r@ == seed_param(defs_of(wbs@, idx@), i as nat),
{
    let ghost ds = defs_of(wbs@, idx@);
    assert(ds.skip(0) =~= ds);
    let mut j: usize = 0;
    while j < idx.len()
        invariant
            j <= idx@.len(),
            ds == defs_of(wbs@, idx@),
            idx_ok(idx@, wbs@.len()),
            seed_param(ds, i as nat) == seed_param(ds.skip(j as int), i as nat),
        decreases idx@.len() - j,
    {
        let ghost sk = ds.skip(j as int);
        assert(sk[0] == wbs@[idx@[j as int] as int]);
        assert(sk.drop_first() =~= ds.skip(j as int + 1));
        let d = &wbs[idx[j]];
        if i < d.patterns.len() {
            match &d.patterns[i] {
                TPattern::Var(_, ty) => {
                    return deep_of_ty(ty);
                },
                TPattern::Constructor { name, args: _ } => {
                    if crate::text::str_eq(name.as_str(), ":") || crate::text::str_eq(name.as_str(), "[]") {
                        assert(name@ == ":"@ || name@ == "[]"@);
                        assert(seed_param(sk, i as nat) == DM::Elems(Box::new(DM::Head)));
                        let r = Demand::Elems(Box::new(Demand::Head));
                        assert(r@ == DM::Elems(Box::new(DM::Head)));
                        return r;
                    }
                    proof {
                        reveal_strlit(":");
                        reveal_strlit("[]");
                    }
                },
                TPattern::Tuple(ps) => {
                    let fs = all_head_fields(ps.len());
                    proof {
                        crate::demand::lemma_fields_model(fs);
                        assert(row_model(fs@) =~= Seq::new(ps@.len(), |_j: int| Some(DM::Head)));
                    }
                    return Demand::Fields(fs);
                },
                _ => {},
            }
        }
        j = j + 1;
    }
    assert(ds.skip(idx@.len() as int).len() == 0);
    Demand::Head
}

fn seed_row_exec(wbs: &Vec<TLocalDef>, idx: &Vec<usize>) -> (r: Vec<Option<Demand>>)
    requires
        idx_ok(idx@, wbs@.len()),
    ensures
        row_model(r@) == seed_row(defs_of(wbs@, idx@)),
{
    let n = max_pats_exec(wbs, idx);
    let ghost ds = defs_of(wbs@, idx@);
    let mut out: Vec<Option<Demand>> = Vec::new();
    let mut i: usize = 0;
    while i < n
        invariant
            i <= n,
            n == max_pats(ds),
            ds == defs_of(wbs@, idx@),
            idx_ok(idx@, wbs@.len()),
            out@.len() == i,
            forall|j: int| 0 <= j < i ==> opt_model(#[trigger] out@[j]) == Some(seed_param(ds, j as nat)),
        decreases n - i,
    {
        let d = seed_param_exec(wbs, idx, i);
        out.push(Some(d));
        i = i + 1;
    }
    assert(row_model(out@) =~= seed_row(ds));
    out
}

fn eq_row_exec(cx: &RowCx, d: &TLocalDef, arity: usize, rd: &Demand) -> (r: Vec<Option<Demand>>)
    requires
        cx.rows.wf(),
    ensures
        row_model(r@) == eq_row(cx_model(*cx), *d, arity as nat, rd@),
{
    let m = dx_exec(cx, &d.body, rd, true);
    let ghost want = eq_row(cx_model(*cx), *d, arity as nat, rd@);
    let mut out: Vec<Option<Demand>> = Vec::new();
    let mut i: usize = 0;
    while i < arity
        invariant
            i <= arity,
            m.wf(),
            m@ == dx(cx_model(*cx), d.body, rd@, true),
            want == eq_row(cx_model(*cx), *d, arity as nat, rd@),
            out@.len() == i,
            forall|j: int| 0 <= j < i ==> opt_model(#[trigger] out@[j]) == want[j],
        decreases arity - i,
    {
        let x = if i < d.patterns.len() { pattern_demand_exec(&d.patterns[i], &m) } else { None };
        out.push(x);
        i = i + 1;
    }
    assert(row_model(out@) =~= want);
    out
}

pub(crate) fn zip_meet_exec(a: &Vec<Option<Demand>>, b: &Vec<Option<Demand>>) -> (r: Vec<Option<Demand>>)
    ensures
        row_model(r@) == zip_meet(row_model(a@), row_model(b@)),
{
    let n = if a.len() <= b.len() { a.len() } else { b.len() };
    let ghost want = zip_meet(row_model(a@), row_model(b@));
    let mut out: Vec<Option<Demand>> = Vec::new();
    let mut i: usize = 0;
    while i < n
        invariant
            i <= n,
            n <= a@.len(),
            n <= b@.len(),
            want == zip_meet(row_model(a@), row_model(b@)),
            want.len() == n,
            out@.len() == i,
            forall|j: int| 0 <= j < i ==> opt_model(#[trigger] out@[j]) == want[j],
        decreases n - i,
    {
        let x = opt_meet(a[i].as_ref(), b[i].as_ref());
        proof {
            assert(row_model(a@)[i as int] == opt_model(a@[i as int]));
            assert(row_model(b@)[i as int] == opt_model(b@[i as int]));
        }
        out.push(x);
        i = i + 1;
    }
    assert(row_model(out@) =~= want);
    out
}

fn rows_under_exec(cx: &RowCx, wbs: &Vec<TLocalDef>, idx: &Vec<usize>, arity: usize, rd: &Demand) -> (r: Vec<Option<Demand>>)
    requires
        cx.rows.wf(),
        idx_ok(idx@, wbs@.len()),
    ensures
        row_model(r@) == rows_under(cx_model(*cx), defs_of(wbs@, idx@), arity as nat, rd@),
{
    let ghost c = cx_model(*cx);
    let ghost ds = defs_of(wbs@, idx@);
    let mut acc: Vec<Option<Demand>> = Vec::new();
    let mut j: usize = 0;
    assert(row_model(acc@) =~= rows_under(c, ds.take(0), arity as nat, rd@));
    while j < idx.len()
        invariant
            j <= idx@.len(),
            cx.rows.wf(),
            c == cx_model(*cx),
            ds == defs_of(wbs@, idx@),
            idx_ok(idx@, wbs@.len()),
            row_model(acc@) == rows_under(c, ds.take(j as int), arity as nat, rd@),
        decreases idx@.len() - j,
    {
        let ghost t = ds.take(j as int + 1);
        assert(t.drop_last() =~= ds.take(j as int));
        assert(t.last() == wbs@[idx@[j as int] as int]);
        let r = eq_row_exec(cx, &wbs[idx[j]], arity, rd);
        if j == 0 {
            assert(t[0] == t.last());
            acc = r;
        } else {
            acc = zip_meet_exec(&acc, &r);
        }
        j = j + 1;
    }
    assert(ds.take(idx@.len() as int) =~= ds);
    acc
}

fn group_step_exec(rows: &Rows, inl: &NameSet, name: &String, wbs: &Vec<TLocalDef>, idx: &Vec<usize>, env: &mut LocalEnv) -> (changed: bool)
    requires
        rows.wf(),
        idx_ok(idx@, wbs@.len()),
    ensures
        (final(env).models(), changed) == group_step(rows.model(), inl@, (name@, defs_of(wbs@, idx@)), old(env).models()),
{
    let ghost e0 = env.models();
    let (run_prev, deep_prev, rdeep) = match env.get(name.as_str()) {
        None => {
            return false;
        },
        Some(l) => (l.run_copy(), l.deep_copy(), l.result_copy()),
    };
    let arity = max_pats_exec(wbs, idx);
    let run_new;
    let deep;
    {
        let cx = RowCx { rows, locals: &*env, inlined: inl };
        assert(cx_model(cx) == (rows.model(), e0, inl@));
        run_new = rows_under_exec(&cx, wbs, idx, arity, &Demand::Head);
        deep = match &deep_prev {
            Some(p) => match &rdeep {
                Demand::Head => None,
                _ => {
                    let dn = rows_under_exec(&cx, wbs, idx, arity, &rdeep);
                    Some(zip_meet_exec(p, &dn))
                },
            },
            None => None,
        };
    }
    let run = zip_meet_exec(&run_prev, &run_new);
    if !rows_same(&run_prev, &run) || !opt_rows_same(&deep_prev, &deep) {
        let ghost key = name@;
        let ghost v = (row_model(run@), opt_row_model(deep), rdeep@);
        let l = LocalRows::new(run, deep, rdeep);
        env.insert(name.as_str(), l);
        proof {
            assert(env.models() =~= e0.insert(key, v));
        }
        true
    } else {
        false
    }
}

fn local_round_exec(rows: &Rows, inl: &NameSet, wbs: &Vec<TLocalDef>, gs: &Vec<(String, Vec<usize>)>, env: &mut LocalEnv) -> (changed: bool)
    requires
        rows.wf(),
        indices_ok(gs@, wbs@.len()),
    ensures
        (final(env).models(), changed) == local_round(rows.model(), inl@, groups_model(gs@, wbs@), old(env).models()),
{
    let ghost gm = groups_model(gs@, wbs@);
    let ghost e0 = env.models();
    let mut changed = false;
    let mut k: usize = 0;
    assert(gm.take(0) =~= Seq::<(Seq<char>, Seq<TLocalDef>)>::empty());
    while k < gs.len()
        invariant
            k <= gs@.len(),
            rows.wf(),
            indices_ok(gs@, wbs@.len()),
            gm == groups_model(gs@, wbs@),
            (env.models(), changed) == local_round(rows.model(), inl@, gm.take(k as int), e0),
        decreases gs@.len() - k,
    {
        let ghost t = gm.take(k as int + 1);
        assert(t.drop_last() =~= gm.take(k as int));
        assert(t.last() == gm[k as int]);
        assert(gm[k as int].1 =~= defs_of(wbs@, gs@[k as int].1@));
        assert(idx_ok(gs@[k as int].1@, wbs@.len())) by {
            assert forall|j: int| 0 <= j < gs@[k as int].1@.len() implies #[trigger] gs@[k as int].1@[j] < wbs@.len() by {
                assert(gs@[k as int].1@[j] < wbs@.len());
            }
        }
        let c = group_step_exec(rows, inl, &gs[k].0, wbs, &gs[k].1, env);
        changed = changed || c;
        k = k + 1;
    }
    assert(gm.take(gs@.len() as int) =~= gm);
    changed
}

fn seed_env_exec(wbs: &Vec<TLocalDef>, gs: &Vec<(String, Vec<usize>)>) -> (r: LocalEnv)
    requires
        indices_ok(gs@, wbs@.len()),
        forall|k: int| 0 <= k < gs@.len() ==> (#[trigger] gs@[k]).1@.len() > 0,
    ensures
        r.models() == seed_env(groups_model(gs@, wbs@)),
{
    let ghost gm = groups_model(gs@, wbs@);
    let mut env = LocalEnv::new();
    let mut k: usize = 0;
    assert(env.models() =~= seed_env(gm.take(0)));
    while k < gs.len()
        invariant
            k <= gs@.len(),
            indices_ok(gs@, wbs@.len()),
            forall|k: int| 0 <= k < gs@.len() ==> (#[trigger] gs@[k]).1@.len() > 0,
            gm == groups_model(gs@, wbs@),
            env.models() == seed_env(gm.take(k as int)),
        decreases gs@.len() - k,
    {
        let ghost t = gm.take(k as int + 1);
        assert(t.drop_last() =~= gm.take(k as int));
        assert(t.last() == gm[k as int]);
        let ghost ds = defs_of(wbs@, gs@[k as int].1@);
        assert(gm[k as int].1 =~= ds);
        let idx = &gs[k].1;
        assert(idx_ok(idx@, wbs@.len())) by {
            assert forall|j: int| 0 <= j < idx@.len() implies #[trigger] idx@[j] < wbs@.len() by {
                assert(gs@[k as int].1@[j] < wbs@.len());
            }
        }
        let row = seed_row_exec(wbs, idx);
        let rdeep = deep_of_ty(&wbs[idx[0]].body.ty);
        assert(ds[0] == wbs@[idx@[0] as int]);
        let deep = match &rdeep {
            Demand::Head => None,
            _ => Some(copy_row(&row)),
        };
        let ghost e0 = env.models();
        let ghost v = (row_model(row@), opt_row_model(deep), rdeep@);
        assert(v == seed_rows(ds));
        env.insert(gs[k].0.as_str(), LocalRows::new(row, deep, rdeep));
        assert(env.models() =~= e0.insert(gs@[k as int].0@, v));
        k = k + 1;
    }
    assert(gm.take(gs@.len() as int) =~= gm);
    env
}

/// The rows of the local functions among `where_binds` (consecutive
/// equations of one name form one function), each computed under the
/// module's rows, the other local functions' rows and `inlined`.
pub fn local_fn_rows(rows: &Rows, inlined: &NameSet, where_binds: &Vec<TLocalDef>) -> (r: LocalEnv)
    requires
        rows.wf(),
    ensures
        r.models() == local_rows_of(rows.model(), inlined@, where_binds@),
{
    let gs = fn_groups_exec(where_binds);
    proof {
        lemma_fn_groups_nonempty(where_binds@);
        assert forall|k: int| 0 <= k < gs@.len() implies (#[trigger] gs@[k]).1@.len() > 0 by {
            assert(groups_model(gs@, where_binds@)[k].1.len() == gs@[k].1@.len());
        }
    }
    let ghost gm = groups_model(gs@, where_binds@);
    let mut env = seed_env_exec(where_binds, &gs);
    let ghost s0 = env.models();
    let mut left: u64 = LOCAL_ROUNDS;
    loop
        invariant_except_break
            local_fix(rows.model(), inlined@, gm, s0, LOCAL_ROUNDS as nat) == local_fix(rows.model(), inlined@, gm, env.models(), left as nat),
        invariant
            rows.wf(),
            indices_ok(gs@, where_binds@.len()),
            gm == groups_model(gs@, where_binds@),
        ensures
            local_fix(rows.model(), inlined@, gm, s0, LOCAL_ROUNDS as nat) == env.models(),
        decreases left,
    {
        if left == 0 {
            break;
        }
        let changed = local_round_exec(rows, inlined, where_binds, &gs, &mut env);
        if !changed {
            break;
        }
        left = left - 1;
    }
    env
}

// ---------------------------------------------------------------------
// The iteration only descends
// ---------------------------------------------------------------------

/// Row `a` claims no more than row `b`: it is no longer, and each demand
/// it holds is subsumed by `b`'s at that position.
pub open spec fn row_below(a: Seq<Option<DM>>, b: Seq<Option<DM>>) -> bool {
    &&& a.len() <= b.len()
    &&& forall|i: int| 0 <= i < a.len() && (#[trigger] a[i]) is Some ==> b[i] is Some && subsumes(b[i]->0, a[i]->0)
}

/// An optional (deep) row below another: absent, or present below a
/// present one.
pub open spec fn opt_below(a: Option<Seq<Option<DM>>>, b: Option<Seq<Option<DM>>>) -> bool {
    match a {
        None => true,
        Some(x) => b is Some && row_below(x, b->0),
    }
}

/// Every local function of `b` has rows in `a`, below its rows in `b`,
/// with the same deep result demand.
pub open spec fn env_below(a: Map<Seq<char>, LRM>, b: Map<Seq<char>, LRM>) -> bool {
    forall|k: Seq<char>| #[trigger] b.contains_key(k) ==> a.contains_key(k)
        && row_below(a[k].0, b[k].0) && opt_below(a[k].1, b[k].1) && a[k].2 == b[k].2
}

pub proof fn lemma_row_below_refl(a: Seq<Option<DM>>)
    ensures
        row_below(a, a),
{
    assert forall|i: int| 0 <= i < a.len() && (#[trigger] a[i]) is Some implies a[i] is Some && subsumes(a[i]->0, a[i]->0) by {
        crate::demand::lemma_subsumes_refl(a[i]->0);
    }
}

pub proof fn lemma_row_below_trans(a: Seq<Option<DM>>, b: Seq<Option<DM>>, c: Seq<Option<DM>>)
    requires
        row_below(a, b),
        row_below(b, c),
    ensures
        row_below(a, c),
{
    assert forall|i: int| 0 <= i < a.len() && (#[trigger] a[i]) is Some implies c[i] is Some && subsumes(c[i]->0, a[i]->0) by {
        assert(b[i] is Some);
        crate::demand::lemma_subsumes_trans(c[i]->0, b[i]->0, a[i]->0);
    }
}

/// Meeting two rows gives a row below both.
pub proof fn lemma_zip_meet_below(a: Seq<Option<DM>>, b: Seq<Option<DM>>)
    ensures
        row_below(zip_meet(a, b), a),
        row_below(zip_meet(a, b), b),
{
    let z = zip_meet(a, b);
    assert forall|i: int| 0 <= i < z.len() && (#[trigger] z[i]) is Some implies a[i] is Some && subsumes(a[i]->0, z[i]->0)
        && b[i] is Some && subsumes(b[i]->0, z[i]->0) by {
        crate::demand::lemma_meet_lower(a[i]->0, b[i]->0);
    }
}

pub proof fn lemma_env_below_refl(a: Map<Seq<char>, LRM>)
    ensures
        env_below(a, a),
{
    assert forall|k: Seq<char>| #[trigger] a.contains_key(k) implies a.contains_key(k)
        && row_below(a[k].0, a[k].0) && opt_below(a[k].1, a[k].1) && a[k].2 == a[k].2 by {
        lemma_row_below_refl(a[k].0);
        if a[k].1 is Some {
            lemma_row_below_refl(a[k].1->0);
        }
    }
}

pub proof fn lemma_env_below_trans(a: Map<Seq<char>, LRM>, b: Map<Seq<char>, LRM>, c: Map<Seq<char>, LRM>)
    requires
        env_below(a, b),
        env_below(b, c),
    ensures
        env_below(a, c),
{
    assert forall|k: Seq<char>| #[trigger] c.contains_key(k) implies a.contains_key(k)
        && row_below(a[k].0, c[k].0) && opt_below(a[k].1, c[k].1) && a[k].2 == c[k].2 by {
        assert(b.contains_key(k));
        lemma_row_below_trans(a[k].0, b[k].0, c[k].0);
        if a[k].1 is Some {
            lemma_row_below_trans(a[k].1->0, b[k].1->0, c[k].1->0);
        }
    }
}

proof fn lemma_step_below(rows: RM, inl: Set<Seq<char>>, g: (Seq<char>, Seq<TLocalDef>), env: Map<Seq<char>, LRM>)
    ensures
        env_below(group_step(rows, inl, g, env).0, env),
{
    lemma_env_below_refl(env);
    if env.contains_key(g.0) {
        let e = env[g.0];
        let arity = max_pats(g.1);
        let cx = (rows, env, inl);
        let run = zip_meet(e.0, rows_under(cx, g.1, arity, DM::Head));
        lemma_zip_meet_below(e.0, rows_under(cx, g.1, arity, DM::Head));
        let deep = match e.1 {
            Some(p) => if e.2 != DM::Head { Some(zip_meet(p, rows_under(cx, g.1, arity, e.2))) } else { None },
            None => None,
        };
        if e.1 is Some && e.2 != DM::Head {
            lemma_zip_meet_below(e.1->0, rows_under(cx, g.1, arity, e.2));
        }
        let r = group_step(rows, inl, g, env).0;
        assert forall|k: Seq<char>| #[trigger] env.contains_key(k) implies r.contains_key(k)
            && row_below(r[k].0, env[k].0) && opt_below(r[k].1, env[k].1) && r[k].2 == env[k].2 by {
            if k != g.0 {
                assert(r[k] == env[k]);
            }
        }
    }
}

proof fn lemma_round_below(rows: RM, inl: Set<Seq<char>>, gs: Seq<(Seq<char>, Seq<TLocalDef>)>, env: Map<Seq<char>, LRM>)
    ensures
        env_below(local_round(rows, inl, gs, env).0, env),
    decreases gs.len(),
{
    if gs.len() == 0 {
        lemma_env_below_refl(env);
    } else {
        let (e1, _c1) = local_round(rows, inl, gs.drop_last(), env);
        lemma_round_below(rows, inl, gs.drop_last(), env);
        lemma_step_below(rows, inl, gs.last(), e1);
        lemma_env_below_trans(local_round(rows, inl, gs, env).0, e1, env);
    }
}

proof fn lemma_fix_below(rows: RM, inl: Set<Seq<char>>, gs: Seq<(Seq<char>, Seq<TLocalDef>)>, env: Map<Seq<char>, LRM>, n: nat)
    ensures
        env_below(local_fix(rows, inl, gs, env, n), env),
    decreases n,
{
    if n == 0 {
        lemma_env_below_refl(env);
    } else {
        let (e2, c) = local_round(rows, inl, gs, env);
        lemma_round_below(rows, inl, gs, env);
        if c {
            lemma_fix_below(rows, inl, gs, e2, (n - 1) as nat);
            lemma_env_below_trans(local_fix(rows, inl, gs, env, n), e2, env);
        }
    }
}

/// The local functions' rows only descend from their seeds: every group's
/// function keeps rows, each row lies below its seed row, a deep row
/// stays only where a seed deep row was, and the deep result demand is
/// the seed's.
pub proof fn lemma_local_rows_below_seeds(rows: RM, inl: Set<Seq<char>>, wbs: Seq<TLocalDef>)
    ensures
        env_below(local_rows_of(rows, inl, wbs), seed_env(fn_groups(wbs))),
{
    lemma_fix_below(rows, inl, fn_groups(wbs), seed_env(fn_groups(wbs)), LOCAL_ROUNDS as nat);
}

} // verus!
