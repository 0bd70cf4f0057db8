//! Demand rows of the module's functions, computed as a greatest fixed
//! point.
//!
//! Rows start from the boolean strictness of every known function (a
//! forced position becomes `Head`) and the list-consuming intrinsics; each
//! function group (same-named functions share one entry) is then seeded
//! with the deepest demand its parameter patterns allow, and with a deep
//! row when it is the only function of its name and its result type has
//! structure. Each round recomputes every group's rows from its clauses —
//! each clause under its own where-bound local functions' rows — and meets
//! them with the previous rows, so the rows only descend and the iteration
//! settles. It is cut off after `MODULE_ROUNDS` rounds, a bound no program
//! reaches.

use vstd::prelude::*;
use crate::tir::{TClause, TFunction, TModule, TPattern};
use crate::types::Ty;
use crate::demand::{DM, Demand, DemandInfo, Rows, RM, NameSet, deep_of, deep_of_ty, row_model, opt_model, opt_row_model,
    rows_same, copy_row};
use crate::structured::{RCx, RowCx, cx_model, dx, guards_dem, close_group, pattern_demand, dx_exec, guards_dem_exec,
    close_group_exec, pattern_demand_exec};
use crate::localrows::{local_rows_of, local_fn_rows, zip_meet, row_below, lemma_row_below_refl, lemma_row_below_trans,
    lemma_zip_meet_below};
use crate::strict_params::{all_fns, max_arity, name_groups, module_wf, strict_params_of};
use crate::demanded::StrictEnv;
use crate::deepresult::{deep_result_gfp, deep_result_set};

verus! {

broadcast use vstd::string::group_string_axioms;

/// The rounds after which the iteration stops.
pub const MODULE_ROUNDS: u64 = 0xffff_ffff_ffff_ffff;

/// A boolean strictness row as a demand row.
pub open spec fn mask_row(m: Seq<bool>) -> Seq<Option<DM>> {
    Seq::new(m.len(), |i: int| if m[i] { Some(DM::Head) } else { None })
}

/// The row of an intrinsic that walks a list argument and forces every
/// element.
pub open spec fn elems_row() -> Seq<Option<DM>> {
    seq![Some(DM::Elems(Box::new(DM::Head)))]
}

/// The base run rows: the boolean strictness rows, and the list-consuming
/// intrinsics.
pub open spec fn base_run(sp: Map<Seq<char>, Seq<bool>>) -> Map<Seq<char>, Seq<Option<DM>>> {
    sp.map_values(|m: Seq<bool>| mask_row(m)).insert("bsConcatList"@, elems_row()).insert("bsPack"@, elems_row())
}

/// The clauses of a group's functions, in order.
pub open spec fn group_clauses(ms: Seq<TFunction>) -> Seq<TClause>
    decreases ms.len(),
{
    if ms.len() == 0 {
        Seq::empty()
    } else {
        group_clauses(ms.drop_last()) + ms.last().clauses@
    }
}

/// The optimistic seed of parameter `i`: decided by the first clause that
/// binds it with a variable (its type's deep demand), a list pattern
/// (every element) or a tuple pattern (every field); `Head` if none does.
pub open spec fn clause_seed(cs: Seq<TClause>, i: nat) -> DM
    decreases cs.len(),
{
    if cs.len() == 0 {
        DM::Head
    } else if i < cs[0].patterns@.len() {
        match cs[0].patterns@[i as int] {
            TPattern::Var(_, ty) => deep_of(ty),
            TPattern::Constructor { name, args: _ } => if name@ == ":"@ || name@ == "[]"@ {
                DM::Elems(Box::new(DM::Head))
            } else {
                clause_seed(cs.drop_first(), i)
            },
            TPattern::Tuple(ps) => DM::Fields(Seq::new(ps@.len(), |_j: int| Some(DM::Head))),
            _ => clause_seed(cs.drop_first(), i),
        }
    } else {
        clause_seed(cs.drop_first(), i)
    }
}

/// A group's seed row.
pub open spec fn clause_seed_row(cs: Seq<TClause>) -> Seq<Option<DM>> {
    Seq::new(max_arity(cs), |i: int| Some(clause_seed(cs, i as nat)))
}

/// `t` without its outer quantifiers.
pub open spec fn strip_forall(t: Ty) -> Ty
    decreases t,
{
    match t {
        Ty::Forall(_, b) => strip_forall(*b),
        _ => t,
    }
}

/// The type left after `n` arrows (looking through quantifiers), or the
/// first type that is no arrow.
pub open spec fn result_ty(t: Ty, n: nat) -> Ty
    decreases n,
{
    if n == 0 {
        t
    } else {
        match t {
            Ty::Arrow(_, r) => result_ty(strip_forall(*r), (n - 1) as nat),
            _ => t,
        }
    }
}

/// One group's seeds: its run row; and, for the only function of its
/// name whose result type has structure, the same row as deep row and
/// that structure as deep result demand.
pub open spec fn seed_group(rm: RM, g: (Seq<char>, Seq<TFunction>)) -> RM {
    let cs = group_clauses(g.1);
    let seed = clause_seed_row(cs);
    let rdeep = deep_of(result_ty(strip_forall(g.1[0].ty), max_arity(cs)));
    let rm1 = if g.1.len() == 1 && rdeep != DM::Head {
        (rm.0, rm.1.insert(g.0, seed), rm.2.insert(g.0, rdeep))
    } else {
        rm
    };
    (rm1.0.insert(g.0, seed), rm1.1, rm1.2)
}

/// The seeds of all groups, in order.
pub open spec fn seed_groups(rm: RM, gs: Seq<(Seq<char>, Seq<TFunction>)>) -> RM
    decreases gs.len(),
{
    if gs.len() == 0 {
        rm
    } else {
        seed_group(seed_groups(rm, gs.drop_last()), gs.last())
    }
}

/// What a clause lets a call site see: the rows, its where-bound local
/// functions' rows, nothing inlined.
pub open spec fn clause_cx(rm: RM, c: TClause) -> RCx {
    (rm, local_rows_of(rm, Set::empty(), c.where_binds@), Set::empty())
}

/// A clause's demand map under result demand `rd`: its body or guard
/// chain in run position, closed over its where-bound values.
pub open spec fn clause_map(cx: RCx, c: TClause, rd: DM) -> Map<Seq<char>, DM> {
    let m = if c.guards@.len() == 0 { dx(cx, c.body, rd, true) } else { guards_dem(cx, c.guards@, rd, true) };
    close_group(cx, c.where_binds@, m)
}

/// A clause's parameter row under `rd`.
pub open spec fn clause_row(rm: RM, c: TClause, arity: nat, rd: DM) -> Seq<Option<DM>> {
    let m = clause_map(clause_cx(rm, c), c, rd);
    Seq::new(arity, |i: int| if i < c.patterns@.len() { pattern_demand(c.patterns@[i], m) } else { None })
}

/// `r` met into an accumulated row, if any.
pub open spec fn meet_into(acc: Option<Seq<Option<DM>>>, r: Seq<Option<DM>>) -> Seq<Option<DM>> {
    match acc {
        None => r,
        Some(p) => zip_meet(p, r),
    }
}

/// The clauses' rows under `rd`, met (none without clauses).
pub open spec fn clauses_row(rm: RM, cs: Seq<TClause>, arity: nat, rd: DM) -> Option<Seq<Option<DM>>>
    decreases cs.len(),
{
    if cs.len() == 0 {
        None
    } else {
        Some(meet_into(clauses_row(rm, cs.drop_last(), arity, rd), clause_row(rm, cs.last(), arity, rd)))
    }
}

/// An optional row, or the empty one.
pub open spec fn or_empty(o: Option<Seq<Option<DM>>>) -> Seq<Option<DM>> {
    match o {
        Some(r) => r,
        None => Seq::empty(),
    }
}

pub open spec fn lookup(m: Map<Seq<char>, Seq<Option<DM>>>, k: Seq<char>) -> Option<Seq<Option<DM>>> {
    if m.contains_key(k) { Some(m[k]) } else { None }
}

/// One group recomputed from its clauses under the current rows and met
/// with its previous rows; whether they changed.
pub open spec fn mod_step(rm: RM, g: (Seq<char>, Seq<TFunction>)) -> (RM, bool) {
    let cs = group_clauses(g.1);
    let ar = max_arity(cs);
    let old_run = lookup(rm.0, g.0);
    let acc = match clauses_row(rm, cs, ar, DM::Head) {
        Some(x) => Some(x),
        None => old_run,
    };
    let run = meet_into(acc, or_empty(old_run));
    let ch1 = old_run != Some(run);
    let rm1 = if ch1 { (rm.0.insert(g.0, run), rm.1, rm.2) } else { rm };
    let dr = if rm.2.contains_key(g.0) { clauses_row(rm, cs, ar, rm.2[g.0]) } else { None };
    match dr {
        Some(d) => {
            let old_deep = lookup(rm.1, g.0);
            let nd = zip_meet(d, or_empty(old_deep));
            if old_deep != Some(nd) {
                ((rm1.0, rm1.1.insert(g.0, nd), rm1.2), true)
            } else {
                (rm1, ch1)
            }
        },
        None => (rm1, ch1),
    }
}

/// One round over the groups in order, each seeing the rows the earlier
/// ones left; whether any changed.
pub open spec fn mod_round(gs: Seq<(Seq<char>, Seq<TFunction>)>, rm: RM) -> (RM, bool)
    decreases gs.len(),
{
    if gs.len() == 0 {
        (rm, false)
    } else {
        let (r1, c1) = mod_round(gs.drop_last(), rm);
        let (r2, c2) = mod_step(r1, gs.last());
        (r2, c1 || c2)
    }
}

/// Rounds until one changes nothing (at most `n`).
pub open spec fn mod_fix(gs: Seq<(Seq<char>, Seq<TFunction>)>, rm: RM, n: nat) -> RM
    decreases n,
{
    if n == 0 {
        rm
    } else {
        let (r2, c) = mod_round(gs, rm);
        if c { mod_fix(gs, r2, (n - 1) as nat) } else { r2 }
    }
}

/// The module's rows, from the boolean strictness rows `sp`.
pub open spec fn module_rows_of(m: TModule, sp: Map<Seq<char>, Seq<bool>>) -> RM {
    let gs = name_groups(all_fns(m));
    mod_fix(gs, seed_groups((base_run(sp), Map::empty(), Map::empty()), gs), MODULE_ROUNDS as nat)
}

// ---------------------------------------------------------------------
// Computed
// ---------------------------------------------------------------------

fn mask_row_exec(m: &Vec<bool>) -> (r: Vec<Option<Demand>>)
    ensures
        row_model(r@) == mask_row(m@),
{
    let mut out: Vec<Option<Demand>> = Vec::new();
    let mut i: usize = 0;
    while i < m.len()
        invariant
            i <= m@.len(),
            out@.len() == i,
            forall|j: int| 0 <= j < i ==> opt_model(#[trigger] out@[j]) == mask_row(m@)[j],
        decreases m@.len() - i,
    {
        let x = if m[i] { Some(Demand::Head) } else { None };
        out.push(x);
        i = i + 1;
    }
    assert(row_model(out@) =~= mask_row(m@));
    out
}

fn elems_row_exec() -> (r: Vec<Option<Demand>>)
    ensures
        row_model(r@) == elems_row(),
{
    let mut out: Vec<Option<Demand>> = Vec::new();
    let e = crate::demand::elems_head();
    out.push(Some(e));
    assert(row_model(out@) =~= elems_row());
    out
}

fn base_rows_exec(sp: &StrictEnv) -> (r: Rows)
    ensures
        r.wf(),
        r.model() == (base_run(sp@), Map::<Seq<char>, Seq<Option<DM>>>::empty(), Map::<Seq<char>, DM>::empty()),
        r.deep_result_set() == Set::<Seq<char>>::empty(),
{
    let mut rows = Rows::new();
    let n = sp.num_entries();
    let ghost es = sp.entries();
    proof {
        sp.lemma_view_entries();
        assert(rows.run_map() =~= crate::demanded::rows_map(es.take(0)).map_values(|m: Seq<bool>| mask_row(m)));
        assert(rows.deep_map() =~= Map::<Seq<char>, Seq<Option<DM>>>::empty());
    }
    let mut i: usize = 0;
    while i < n
        invariant
            i <= n,
            n == es.len(),
            es == sp.entries(),
            rows.wf(),
            rows.run_map() == crate::demanded::rows_map(es.take(i as int)).map_values(|m: Seq<bool>| mask_row(m)),
            rows.deep_map() == Map::<Seq<char>, Seq<Option<DM>>>::empty(),
            rows.result_deep_map() == Map::<Seq<char>, DM>::empty(),
            rows.deep_result_set() == Set::<Seq<char>>::empty(),
        decreases n - i,
    {
        let (name, mask) = sp.entry_at(i);
        let row = mask_row_exec(mask);
        let ghost before = rows.run_map();
        rows.set_run(name.as_str(), row);
        proof {
            let t = es.take(i as int + 1);
            assert(t.drop_last() =~= es.take(i as int));
            assert(t.last() == es[i as int]);
            assert(rows.run_map() =~= crate::demanded::rows_map(t).map_values(|m: Seq<bool>| mask_row(m)));
        }
        i = i + 1;
    }
    proof {
        assert(es.take(n as int) =~= es);
    }
    rows.set_run("bsConcatList", elems_row_exec());
    rows.set_run("bsPack", elems_row_exec());
    proof {
        assert(rows.run_map() =~= base_run(sp@));
    }
    rows
}

/// The functions at the given indices.
pub open spec fn members_of(fs: Seq<TFunction>, idx: Seq<usize>) -> Seq<TFunction> {
    Seq::new(idx.len(), |j: int| fs[idx[j] as int])
}

pub open spec fn fidx_ok(idx: Seq<usize>, n: nat) -> bool {
    forall|j: int| 0 <= j < idx.len() ==> #[trigger] idx[j] < n
}

pub open spec fn derefs(v: Seq<&TClause>) -> Seq<TClause> {
    v.map_values(|c: &TClause| *c)
}

pub(crate) fn group_clause_refs<'a>(m: &'a TModule, idx: &Vec<usize>) -> (r: Vec<&'a TClause>)
    requires
        fidx_ok(idx@, all_fns(*m).len()),
    ensures
        derefs(r@) == group_clauses(members_of(all_fns(*m), idx@)),
{
    let ghost ms = members_of(all_fns(*m), idx@);
    let mut out: Vec<&'a TClause> = Vec::new();
    let mut j: usize = 0;
    assert(derefs(out@) =~= group_clauses(ms.take(0)));
    while j < idx.len()
        invariant
            j <= idx@.len(),
            ms == members_of(all_fns(*m), idx@),
            fidx_ok(idx@, all_fns(*m).len()),
            derefs(out@) == group_clauses(ms.take(j as int)),
        decreases idx@.len() - j,
    {
        let f = crate::strict_params::fn_at(m, idx[j]);
        let ghost base = out@;
        let mut c: usize = 0;
        while c < f.clauses.len()
            invariant
                c <= f.clauses@.len(),
                out@.len() == base.len() + c,
                forall|q: int| 0 <= q < base.len() ==> out@[q] == base[q],
                forall|q: int| 0 <= q < c ==> *out@[base.len() + q] == f.clauses@[q],
            decreases f.clauses@.len() - c,
        {
            out.push(&f.clauses[c]);
            c = c + 1;
        }
        proof {
            let t = ms.take(j as int + 1);
            assert(t.drop_last() =~= ms.take(j as int));
            assert(t.last() == *f);
            assert(derefs(out@) =~= derefs(base) + f.clauses@);
        }
        j = j + 1;
    }
    assert(ms.take(idx@.len() as int) =~= ms);
    out
}

pub(crate) fn max_arity_exec(cs: &Vec<&TClause>) -> (r: usize)
    ensures
        r == max_arity(derefs(cs@)),
{
    let ghost d = derefs(cs@);
    let mut r: usize = 0;
    let mut i: usize = 0;
    while i < cs.len()
        invariant
            i <= cs@.len(),
            d == derefs(cs@),
            r == max_arity(d.take(i as int)),
        decreases cs@.len() - i,
    {
        let ghost t = d.take(i as int + 1);
        assert(t.drop_last() =~= d.take(i as int));
        let k = cs[i].patterns.len();
        if r < k {
            r = k;
        }
        i = i + 1;
    }
    assert(d.take(cs@.len() as int) =~= d);
    r
}

fn all_head_fields(n: usize) -> (r: Vec<Option<Demand>>)
    ensures
        row_model(r@) == Seq::new(n as nat, |_j: int| Some(DM::Head)),
{
    let mut out: Vec<Option<Demand>> = Vec::new();
    let mut i: usize = 0;
    while i < n
        invariant
            i <= n,
            out@.len() == i,
            forall|j: int| 0 <= j < i ==> opt_model(#[trigger] out@[j]) == Some(DM::Head),
        decreases n - i,
    {
        out.push(Some(Demand::Head));
        i = i + 1;
    }
    assert(row_model(out@) =~= Seq::new(n as nat, |_j: int| Some(DM::Head)));
    out
}

fn clause_seed_exec(cs: &Vec<&TClause>, i: usize) -> (r: Demand)
    ensures
        r@ == clause_seed(derefs(cs@), i as nat),
{
    let ghost d = derefs(cs@);
    assert(d.skip(0) =~= d);
    let mut j: usize = 0;
    while j < cs.len()
        invariant
            j <= cs@.len(),
            d == derefs(cs@),
            clause_seed(d, i as nat) == clause_seed(d.skip(j as int), i as nat),
        decreases cs@.len() - j,
    {
        let ghost sk = d.skip(j as int);
        assert(sk[0] == *cs@[j as int]);
        assert(sk.drop_first() =~= d.skip(j as int + 1));
        let c = cs[j];
        if i < c.patterns.len() {
            match &c.patterns[i] {
                TPattern::Var(_, ty) => {
                    return deep_of_ty(ty);
                },
                TPattern::Constructor { name, args: _ } => {
                    if crate::text::str_eq(name.as_str(), ":") || crate::text::str_eq(name.as_str(), "[]") {
                        assert(clause_seed(sk, i as nat) == DM::Elems(Box::new(DM::Head)));
                        return crate::demand::elems_head();
                    }
                },
                TPattern::Tuple(ps) => {
                    let fs = all_head_fields(ps.len());
                    proof {
                        crate::demand::lemma_fields_model(fs);
                    }
                    return Demand::Fields(fs);
                },
                _ => {},
            }
        }
        j = j + 1;
    }
    assert(d.skip(cs@.len() as int).len() == 0);
    Demand::Head
}

fn clause_seed_row_exec(cs: &Vec<&TClause>) -> (r: Vec<Option<Demand>>)
    ensures
        row_model(r@) == clause_seed_row(derefs(cs@)),
{
    let n = max_arity_exec(cs);
    let ghost d = derefs(cs@);
    let mut out: Vec<Option<Demand>> = Vec::new();
    let mut i: usize = 0;
    while i < n
        invariant
            i <= n,
            n == max_arity(d),
            d == derefs(cs@),
            out@.len() == i,
            forall|j: int| 0 <= j < i ==> opt_model(#[trigger] out@[j]) == Some(clause_seed(d, j as nat)),
        decreases n - i,
    {
        let x = clause_seed_exec(cs, i);
        out.push(Some(x));
        i = i + 1;
    }
    assert(row_model(out@) =~= clause_seed_row(d));
    out
}

fn strip_forall_exec(t: &Ty) -> (r: &Ty)
    ensures
        *r == strip_forall(*t),
    decreases t,
{
    match t {
        Ty::Forall(_, b) => strip_forall_exec(b),
        _ => t,
    }
}

fn result_ty_exec(t: &Ty, n: usize) -> (r: &Ty)
    ensures
        *r == result_ty(*t, n as nat),
    decreases n,
{
    if n == 0 {
        t
    } else {
        match t {
            Ty::Arrow(_, r) => result_ty_exec(strip_forall_exec(r), n - 1),
            _ => t,
        }
    }
}

fn clause_row_exec(rows: &Rows, c: &TClause, arity: usize, rd: &Demand) -> (r: Vec<Option<Demand>>)
    requires
        rows.wf(),
    ensures
        row_model(r@) == clause_row(rows.model(), *c, arity as nat, rd@),
{
    let inl = NameSet::new();
    let locals = local_fn_rows(rows, &inl, &c.where_binds);
    let cx = RowCx { rows, locals: &locals, inlined: &inl };
    assert(cx_model(cx) == clause_cx(rows.model(), *c));
    let mut m = if c.guards.len() == 0 {
        dx_exec(&cx, &c.body, rd, true)
    } else {
        guards_dem_exec(&cx, &c.guards, rd, true)
    };
    close_group_exec(&cx, &c.where_binds, &mut m);
    let ghost want = clause_row(rows.model(), *c, arity as nat, rd@);
    let mut out: Vec<Option<Demand>> = Vec::new();
    let mut i: usize = 0;
    while i < arity
        invariant
            i <= arity,
            m.wf(),
            m@ == clause_map(clause_cx(rows.model(), *c), *c, rd@),
            want == clause_row(rows.model(), *c, arity as nat, rd@),
            out@.len() == i,
            forall|j: int| 0 <= j < i ==> opt_model(#[trigger] out@[j]) == want[j],
        decreases arity - i,
    {
        let x = if i < c.patterns.len() { pattern_demand_exec(&c.patterns[i], &m) } else { None };
        out.push(x);
        i = i + 1;
    }
    assert(row_model(out@) =~= want);
    out
}

fn clauses_row_exec(rows: &Rows, cs: &Vec<&TClause>, arity: usize, rd: &Demand) -> (r: Option<Vec<Option<Demand>>>)
    requires
        rows.wf(),
    ensures
        opt_row_model(r) == clauses_row(rows.model(), derefs(cs@), arity as nat, rd@),
{
    let ghost d = derefs(cs@);
    let mut acc: Option<Vec<Option<Demand>>> = None;
    let mut i: usize = 0;
    assert(d.take(0).len() == 0);
    while i < cs.len()
        invariant
            i <= cs@.len(),
            rows.wf(),
            d == derefs(cs@),
            opt_row_model(acc) == clauses_row(rows.model(), d.take(i as int), arity as nat, rd@),
        decreases cs@.len() - i,
    {
        let ghost t = d.take(i as int + 1);
        assert(t.drop_last() =~= d.take(i as int));
        assert(t.last() == *cs@[i as int]);
        let r = clause_row_exec(rows, cs[i], arity, rd);
        acc = match acc {
            None => Some(r),
            Some(p) => Some(crate::localrows::zip_meet_exec(&p, &r)),
        };
        i = i + 1;
    }
    assert(d.take(cs@.len() as int) =~= d);
    acc
}

fn or_empty_exec(o: &Option<Vec<Option<Demand>>>) -> (r: Vec<Option<Demand>>)
    ensures
        row_model(r@) == or_empty(opt_row_model(*o)),
{
    match o {
        Some(v) => copy_row(v),
        None => {
            let e: Vec<Option<Demand>> = Vec::new();
            assert(row_model(e@) =~= Seq::<Option<DM>>::empty());
            e
        },
    }
}

fn copy_opt_row(o: Option<&Vec<Option<Demand>>>) -> (r: Option<Vec<Option<Demand>>>)
    ensures
        opt_row_model(r) == match o {
            Some(v) => Some(row_model(v@)),
            None => None,
        },
{
    match o {
        Some(v) => Some(copy_row(v)),
        None => None,
    }
}

fn mod_step_exec(rows: &mut Rows, name: &String, cs: &Vec<&TClause>, Ghost(ms): Ghost<Seq<TFunction>>) -> (changed: bool)
    requires
        old(rows).wf(),
        derefs(cs@) == group_clauses(ms),
    ensures
        final(rows).wf(),
        final(rows).deep_result_set() == old(rows).deep_result_set(),
        (final(rows).model(), changed) == mod_step(old(rows).model(), (name@, ms)),
{
    let ghost rm = rows.model();
    let ar = max_arity_exec(cs);
    let old_run = copy_opt_row(rows.run_row(name.as_str()));
    assert(opt_row_model(old_run) == lookup(rm.0, name@));
    let rr = clauses_row_exec(&*rows, cs, ar, &Demand::Head);
    let rdeep = match rows.result_deep_of(name.as_str()) {
        Some(d) => Some(d.copy()),
        None => None,
    };
    let dr = match &rdeep {
        Some(d) => clauses_row_exec(&*rows, cs, ar, d),
        None => None,
    };
    let old_deep = copy_opt_row(rows.deep_row(name.as_str()));
    assert(opt_row_model(old_deep) == lookup(rm.1, name@));
    let empty_run = or_empty_exec(&old_run);
    let run = match rr {
        Some(x) => crate::localrows::zip_meet_exec(&x, &empty_run),
        None => match &old_run {
            Some(p) => crate::localrows::zip_meet_exec(p, &empty_run),
            None => empty_run,
        },
    };
    let same_run = match &old_run {
        Some(p) => rows_same(p, &run),
        None => false,
    };
    let ch1 = !same_run;
    if ch1 {
        rows.set_run(name.as_str(), run);
    }
    match dr {
        Some(d) => {
            let empty_deep = or_empty_exec(&old_deep);
            let nd = crate::localrows::zip_meet_exec(&d, &empty_deep);
            let same_deep = match &old_deep {
                Some(p) => rows_same(p, &nd),
                None => false,
            };
            if !same_deep {
                rows.set_deep(name.as_str(), nd);
                true
            } else {
                ch1
            }
        },
        None => ch1,
    }
}

pub open spec fn groups_ok(g: Seq<(String, Vec<usize>)>, n: nat) -> bool {
    forall|k: int, j: int| 0 <= k < g.len() && 0 <= j < g[k].1@.len() ==> #[trigger] g[k].1@[j] < n
}

pub(crate) proof fn lemma_group_at(g: Seq<(String, Vec<usize>)>, fs: Seq<TFunction>, k: int)
    requires
        0 <= k < g.len(),
        groups_ok(g, fs.len()),
    ensures
        fidx_ok(g[k].1@, fs.len()),
        crate::strict_params::ngroups_model(g, fs)[k] == (g[k].0@, members_of(fs, g[k].1@)),
{
    assert forall|j: int| 0 <= j < g[k].1@.len() implies #[trigger] g[k].1@[j] < fs.len() by {
        assert(g[k].1@[j] < fs.len());
    }
    assert(crate::strict_params::ngroups_model(g, fs)[k].1 =~= members_of(fs, g[k].1@));
}

fn seed_groups_exec(m: &TModule, g: &Vec<(String, Vec<usize>)>, rows: &mut Rows)
    requires
        old(rows).wf(),
        groups_ok(g@, all_fns(*m).len()),
        forall|k: int| 0 <= k < g@.len() ==> (#[trigger] g@[k]).1@.len() > 0,
    ensures
        final(rows).wf(),
        final(rows).deep_result_set() == old(rows).deep_result_set(),
        final(rows).model() == seed_groups(old(rows).model(), crate::strict_params::ngroups_model(g@, all_fns(*m))),
{
    let ghost fs = all_fns(*m);
    let ghost gm = crate::strict_params::ngroups_model(g@, fs);
    let ghost rm0 = rows.model();
    let mut k: usize = 0;
    assert(gm.take(0).len() == 0);
    while k < g.len()
        invariant
            k <= g@.len(),
            fs == all_fns(*m),
            gm == crate::strict_params::ngroups_model(g@, fs),
            groups_ok(g@, fs.len()),
            forall|k: int| 0 <= k < g@.len() ==> (#[trigger] g@[k]).1@.len() > 0,
            rows.wf(),
            rows.deep_result_set() == old(rows).deep_result_set(),
            rows.model() == seed_groups(rm0, gm.take(k as int)),
        decreases g@.len() - k,
    {
        proof {
            lemma_group_at(g@, fs, k as int);
        }
        let ghost t = gm.take(k as int + 1);
        assert(t.drop_last() =~= gm.take(k as int));
        assert(t.last() == gm[k as int]);
        let ghost ms = members_of(fs, g@[k as int].1@);
        let ghost rm = rows.model();
        let name = &g[k].0;
        let idx = &g[k].1;
        let cs = group_clause_refs(m, idx);
        let seed = clause_seed_row_exec(&cs);
        let ar = max_arity_exec(&cs);
        if idx.len() == 1 {
            let f0 = crate::strict_params::fn_at(m, idx[0]);
            assert(ms[0] == *f0);
            let rty = result_ty_exec(strip_forall_exec(&f0.ty), ar);
            let rdeep = deep_of_ty(rty);
            match &rdeep {
                Demand::Head => {},
                _ => {
                    rows.set_deep(name.as_str(), copy_row(&seed));
                    rows.replace_result_deep(name.as_str(), rdeep);
                },
            }
        }
        rows.set_run(name.as_str(), seed);
        proof {
            assert(rows.model() == seed_group(rm, (name@, ms)));
        }
        k = k + 1;
    }
    assert(gm.take(g@.len() as int) =~= gm);
}

fn mod_round_exec(m: &TModule, g: &Vec<(String, Vec<usize>)>, rows: &mut Rows) -> (changed: bool)
    requires
        old(rows).wf(),
        groups_ok(g@, all_fns(*m).len()),
    ensures
        final(rows).wf(),
        final(rows).deep_result_set() == old(rows).deep_result_set(),
        (final(rows).model(), changed) == mod_round(crate::strict_params::ngroups_model(g@, all_fns(*m)), old(rows).model()),
{
    let ghost fs = all_fns(*m);
    let ghost gm = crate::strict_params::ngroups_model(g@, fs);
    let ghost rm0 = rows.model();
    let mut changed = false;
    let mut k: usize = 0;
    assert(gm.take(0).len() == 0);
    while k < g.len()
        invariant
            k <= g@.len(),
            fs == all_fns(*m),
            gm == crate::strict_params::ngroups_model(g@, fs),
            groups_ok(g@, fs.len()),
            rows.wf(),
            rows.deep_result_set() == old(rows).deep_result_set(),
            (rows.model(), changed) == mod_round(gm.take(k as int), rm0),
        decreases g@.len() - k,
    {
        proof {
            lemma_group_at(g@, fs, k as int);
        }
        let ghost t = gm.take(k as int + 1);
        assert(t.drop_last() =~= gm.take(k as int));
        assert(t.last() == gm[k as int]);
        let cs = group_clause_refs(m, &g[k].1);
        let c = mod_step_exec(rows, &g[k].0, &cs, Ghost(members_of(fs, g@[k as int].1@)));
        changed = changed || c;
        k = k + 1;
    }
    assert(gm.take(g@.len() as int) =~= gm);
    changed
}

/// The demand rows of the module's functions (`module.functions`, then
/// `module.instance_fns`), from the boolean strictness rows `strict`, and
/// the whole-program deep-result set under those rows.
pub fn module_rows(module: &TModule, strict: &StrictEnv) -> (r: Rows)
    requires
        all_fns(*module).len() <= usize::MAX,
    ensures
        r.wf(),
        r.model() == module_rows_of(*module, strict@),
        r.deep_result_set() == deep_result_gfp(*module, r.model()),
{
    let g = crate::strict_params::name_groups_exec(module);
    let ghost fs = all_fns(*module);
    let ghost gm = crate::strict_params::ngroups_model(g@, fs);
    proof {
        crate::strict_params::lemma_name_groups_nonempty(fs);
        assert forall|k: int| 0 <= k < g@.len() implies (#[trigger] g@[k]).1@.len() > 0 by {
            assert(gm[k].1.len() == g@[k].1@.len());
        }
    }
    let mut rows = base_rows_exec(strict);
    seed_groups_exec(module, &g, &mut rows);
    let ghost s0 = rows.model();
    let mut left: u64 = MODULE_ROUNDS;
    loop
        invariant_except_break
            mod_fix(gm, s0, MODULE_ROUNDS as nat) == mod_fix(gm, rows.model(), left as nat),
        invariant
            rows.wf(),
            rows.deep_result_set() == Set::<Seq<char>>::empty(),
            groups_ok(g@, fs.len()),
            fs == all_fns(*module),
            gm == crate::strict_params::ngroups_model(g@, fs),
        ensures
            mod_fix(gm, s0, MODULE_ROUNDS as nat) == rows.model(),
        decreases left,
    {
        if left == 0 {
            break;
        }
        let changed = mod_round_exec(module, &g, &mut rows);
        if !changed {
            break;
        }
        left = left - 1;
    }
    let dr = deep_result_set(module, &rows);
    rows.set_deep_result(dr);
    rows
}

// ---------------------------------------------------------------------
// The iteration only descends
// ---------------------------------------------------------------------

/// Every run and deep row of `b` has a row in `a` below it, and the deep
/// result demands are the same.
pub open spec fn rm_below(a: RM, b: RM) -> bool {
    &&& forall|k: Seq<char>| #[trigger] b.0.contains_key(k) ==> a.0.contains_key(k) && row_below(a.0[k], b.0[k])
    &&& forall|k: Seq<char>| #[trigger] b.1.contains_key(k) ==> a.1.contains_key(k) && row_below(a.1[k], b.1[k])
    &&& a.2 == b.2
}

proof fn lemma_rm_below_refl(a: RM)
    ensures
        rm_below(a, a),
{
    assert forall|k: Seq<char>| #[trigger] a.0.contains_key(k) implies a.0.contains_key(k) && row_below(a.0[k], a.0[k]) by {
        lemma_row_below_refl(a.0[k]);
    }
    assert forall|k: Seq<char>| #[trigger] a.1.contains_key(k) implies a.1.contains_key(k) && row_below(a.1[k], a.1[k]) by {
        lemma_row_below_refl(a.1[k]);
    }
}

proof fn lemma_rm_below_trans(a: RM, b: RM, c: RM)
    requires
        rm_below(a, b),
        rm_below(b, c),
    ensures
        rm_below(a, c),
{
    assert forall|k: Seq<char>| #[trigger] c.0.contains_key(k) implies a.0.contains_key(k) && row_below(a.0[k], c.0[k]) by {
        assert(b.0.contains_key(k));
        lemma_row_below_trans(a.0[k], b.0[k], c.0[k]);
    }
    assert forall|k: Seq<char>| #[trigger] c.1.contains_key(k) implies a.1.contains_key(k) && row_below(a.1[k], c.1[k]) by {
        assert(b.1.contains_key(k));
        lemma_row_below_trans(a.1[k], b.1[k], c.1[k]);
    }
}

proof fn lemma_mod_step_below(rm: RM, g: (Seq<char>, Seq<TFunction>))
    ensures
        rm_below(mod_step(rm, g).0, rm),
{
    let cs = group_clauses(g.1);
    let ar = max_arity(cs);
    let old_run = lookup(rm.0, g.0);
    let acc = match clauses_row(rm, cs, ar, DM::Head) {
        Some(x) => Some(x),
        None => old_run,
    };
    let run = meet_into(acc, or_empty(old_run));
    if old_run is Some {
        lemma_zip_meet_below(acc->0, or_empty(old_run));
    }
    let ch1 = old_run != Some(run);
    let rm1 = if ch1 { (rm.0.insert(g.0, run), rm.1, rm.2) } else { rm };
    let dr = if rm.2.contains_key(g.0) { clauses_row(rm, cs, ar, rm.2[g.0]) } else { None };
    let old_deep = lookup(rm.1, g.0);
    if dr is Some {
        lemma_zip_meet_below(dr->0, or_empty(old_deep));
    }
    let r = mod_step(rm, g).0;
    assert forall|k: Seq<char>| #[trigger] rm.0.contains_key(k) implies r.0.contains_key(k) && row_below(r.0[k], rm.0[k]) by {
        lemma_row_below_refl(rm.0[k]);
        if k == g.0 {
            assert(old_run == Some(rm.0[k]));
        }
    }
    assert forall|k: Seq<char>| #[trigger] rm.1.contains_key(k) implies r.1.contains_key(k) && row_below(r.1[k], rm.1[k]) by {
        lemma_row_below_refl(rm.1[k]);
        if k == g.0 {
            assert(old_deep == Some(rm.1[k]));
        }
    }
}

proof fn lemma_mod_round_below(gs: Seq<(Seq<char>, Seq<TFunction>)>, rm: RM)
    ensures
        rm_below(mod_round(gs, rm).0, rm),
    decreases gs.len(),
{
    if gs.len() == 0 {
        lemma_rm_below_refl(rm);
    } else {
        let (r1, _c1) = mod_round(gs.drop_last(), rm);
        lemma_mod_round_below(gs.drop_last(), rm);
        lemma_mod_step_below(r1, gs.last());
        lemma_rm_below_trans(mod_round(gs, rm).0, r1, rm);
    }
}

proof fn lemma_mod_fix_below(gs: Seq<(Seq<char>, Seq<TFunction>)>, rm: RM, n: nat)
    ensures
        rm_below(mod_fix(gs, rm, n), rm),
    decreases n,
{
    if n == 0 {
        lemma_rm_below_refl(rm);
    } else {
        let (r2, c) = mod_round(gs, rm);
        lemma_mod_round_below(gs, rm);
        if c {
            lemma_mod_fix_below(gs, r2, (n - 1) as nat);
            lemma_rm_below_trans(mod_fix(gs, rm, n), r2, rm);
        }
    }
}

/// The module's rows only descend from their seeds: every seeded run or
/// deep row keeps a row below it, and the deep result demands are the
/// seeds'.
pub proof fn lemma_module_rows_below_seeds(m: TModule, sp: Map<Seq<char>, Seq<bool>>)
    ensures
        rm_below(
            module_rows_of(m, sp),
            seed_groups((base_run(sp), Map::empty(), Map::empty()), name_groups(all_fns(m))),
        ),
{
    let gs = name_groups(all_fns(m));
    lemma_mod_fix_below(gs, seed_groups((base_run(sp), Map::empty(), Map::empty()), gs), MODULE_ROUNDS as nat);
}

/// The demand analysis of a module: every function's parameter
/// strictness, the demand rows built on it, and the functions whose own
/// body is generated under the deep demand of its result.
pub fn analyze(module: &TModule) -> (r: DemandInfo)
    requires
        module_wf(*module),
        all_fns(*module).len() <= usize::MAX,
    ensures
        r.strict_params@ == strict_params_of(*module),
        r.rows.wf(),
        r.rows.model() == module_rows_of(*module, strict_params_of(*module)),
        r.rows.deep_result_set() == deep_result_gfp(*module, r.rows.model()),
{
    let sp = crate::strict_params::strict_params(module);
    let rows = module_rows(module, &sp);
    DemandInfo { strict_params: sp, rows }
}

} // verus!
