//! Dead-code elimination over the monomorphized function set.
//!
//! Only the functions reachable from the program's entry points — `main`
//! (when the module has one) and the exported functions — survive. A
//! function's out-edges are every name its clauses reference (variables,
//! constructors, operators, dictionary methods, the functions a
//! specialized call threads) plus every constructor its patterns match.
//! A `data` definition none of whose constructors live code constructs or
//! matches moves to `dropped_data_defs`, keeping its metadata for
//! registration.

use vstd::prelude::*;
use crate::tir::{TPattern, SpecKind, TExpr, TExprKind, TGuard, TCaseBranch, TLocalDef, TClause, TFunction, TModule, TDataDef};
use crate::demand::NameSet;

verus! {

broadcast use vstd::string::group_string_axioms;

// ---------------------------------------------------------------------
// What a function references
// ---------------------------------------------------------------------

/// The constructor names a pattern matches.
pub open spec fn pat_refs(p: TPattern) -> Set<Seq<char>>
    decreases p,
{
    match p {
        TPattern::Constructor { name, args } => pats_refs(args@).insert(name@),
        TPattern::Paren(inner) => pat_refs(*inner),
        TPattern::Tuple(elems) => pats_refs(elems@),
        _ => Set::empty(),
    }
}

pub open spec fn pats_refs(s: Seq<TPattern>) -> Set<Seq<char>>
    decreases s,
{
    if s.len() == 0 {
        Set::empty()
    } else {
        pats_refs(s.drop_last()) + pat_refs(s.last())
    }
}

/// The mata-ll functions a specialized call keeps live. The original
/// function is not among them: emission reads only the specialization.
pub open spec fn spec_kind_refs(k: SpecKind) -> Set<Seq<char>> {
    match k {
        SpecKind::Dict { methods } => Set::new(|n: Seq<char>| exists|i: int| 0 <= i < methods@.len() && #[trigger] methods@[i].1@ == n),
        SpecKind::DictCtor { methods } => Set::new(|n: Seq<char>| exists|i: int| 0 <= i < methods@.len() && #[trigger] methods@[i].1@ == n),
        SpecKind::ListEq(n) => set![n@],
        SpecKind::MaybeEq(n) => set![n@],
        SpecKind::ShowList(n) => set![n@],
        SpecKind::ShowMaybe(n) => set![n@],
        SpecKind::TupleEq(ns) => Set::new(|n: Seq<char>| exists|i: int| 0 <= i < ns@.len() && #[trigger] ns@[i]@ == n),
        _ => Set::empty(),
    }
}

/// Every name an expression may reference.
pub open spec fn expr_refs(e: TExpr) -> Set<Seq<char>>
    decreases e,
{
    match e.kind {
        TExprKind::Var(n) => set![n@],
        TExprKind::Con(n) => set![n@],
        TExprKind::OpFunc(n) => set![n@],
        TExprKind::Lit(_) => Set::empty(),
        TExprKind::App(f, a) => expr_refs(*f) + expr_refs(*a),
        TExprKind::InfixApp { op, lhs, rhs } => (expr_refs(*lhs) + expr_refs(*rhs)).insert(op@),
        TExprKind::Lambda { params: _, body } => expr_refs(*body),
        TExprKind::Negate(x) => expr_refs(*x),
        TExprKind::Paren(x) => expr_refs(*x),
        TExprKind::If { cond, then_branch, else_branch } =>
            expr_refs(*cond) + expr_refs(*then_branch) + expr_refs(*else_branch),
        TExprKind::Case { scrutinee, branches } => expr_refs(*scrutinee) + branches_refs(branches@),
        TExprKind::Let { binds, body } => binds_refs(binds@) + expr_refs(*body),
        TExprKind::Tuple(elems) => exprs_refs(elems@),
        TExprKind::SpecCall { original: _, specialized, args } => spec_kind_refs(specialized) + exprs_refs(args@),
        TExprKind::DictCall { func_name, dict_args, value_args } =>
            (exprs_refs(dict_args@) + exprs_refs(value_args@)).insert(func_name@),
        TExprKind::DictMethod { dict, method_name } => expr_refs(*dict).insert(method_name@),
        TExprKind::DictAccess { class_name: _, method_name } => set![method_name@],
        TExprKind::RecordUpdate { record, updates } => expr_refs(*record) + updates_refs(updates@),
        TExprKind::OutgoingCallback { callee, arity: _ } => expr_refs(*callee),
        TExprKind::FfiMaybeArg { value } => expr_refs(*value),
    }
}

pub open spec fn exprs_refs(s: Seq<TExpr>) -> Set<Seq<char>>
    decreases s,
{
    if s.len() == 0 {
        Set::empty()
    } else {
        exprs_refs(s.drop_last()) + expr_refs(s.last())
    }
}

pub open spec fn updates_refs(s: Seq<(String, usize, TExpr)>) -> Set<Seq<char>>
    decreases s,
{
    if s.len() == 0 {
        Set::empty()
    } else {
        updates_refs(s.drop_last()) + expr_refs(s.last().2)
    }
}

pub open spec fn guards_refs(s: Seq<TGuard>) -> Set<Seq<char>>
    decreases s,
{
    if s.len() == 0 {
        Set::empty()
    } else {
        guards_refs(s.drop_last()) + expr_refs(s.last().condition) + expr_refs(s.last().body)
    }
}

pub open spec fn branches_refs(s: Seq<TCaseBranch>) -> Set<Seq<char>>
    decreases s,
{
    if s.len() == 0 {
        Set::empty()
    } else {
        branches_refs(s.drop_last()) + pat_refs(s.last().pattern) + guards_refs(s.last().guards@)
            + expr_refs(s.last().body)
    }
}

/// `let`/`where` bindings: their patterns' constructors and their bodies.
pub open spec fn binds_refs(s: Seq<TLocalDef>) -> Set<Seq<char>>
    decreases s,
{
    if s.len() == 0 {
        Set::empty()
    } else {
        binds_refs(s.drop_last()) + pats_refs(s.last().patterns@) + expr_refs(s.last().body)
    }
}

pub open spec fn clause_refs(c: TClause) -> Set<Seq<char>> {
    pats_refs(c.patterns@) + guards_refs(c.guards@) + expr_refs(c.body) + binds_refs(c.where_binds@)
}

pub open spec fn clauses_refs(s: Seq<TClause>) -> Set<Seq<char>>
    decreases s,
{
    if s.len() == 0 {
        Set::empty()
    } else {
        clauses_refs(s.drop_last()) + clause_refs(s.last())
    }
}

/// The out-edges of a function.
pub open spec fn fn_refs(f: TFunction) -> Set<Seq<char>> {
    clauses_refs(f.clauses@)
}


// ---------------------------------------------------------------------
// Collecting the references
// ---------------------------------------------------------------------

fn collect_pattern(p: &TPattern, refs: &mut NameSet)
    ensures
        final(refs)@ == old(refs)@ + pat_refs(*p),
    decreases p,
{
    match p {
        TPattern::Constructor { name, args } => {
            collect_patterns(args, refs);
            refs.insert(name.as_str());
        },
        TPattern::Paren(inner) => collect_pattern(inner, refs),
        TPattern::Tuple(elems) => collect_patterns(elems, refs),
        _ => {},
    }
}

fn collect_patterns(ps: &Vec<TPattern>, refs: &mut NameSet)
    ensures
        final(refs)@ == old(refs)@ + pats_refs(ps@),
    decreases ps,
{
    let mut i: usize = 0;
    while i < ps.len()
        invariant
            i <= ps@.len(),
            refs@ == old(refs)@ + pats_refs(ps@.take(i as int)),
        decreases ps@.len() - i,
    {
        assert(decreases_to!(ps => ps@[i as int]));
        collect_pattern(&ps[i], refs);
        assert(ps@.take(i as int + 1).drop_last() =~= ps@.take(i as int));
        i = i + 1;
    }
    assert(ps@.take(ps@.len() as int) =~= ps@);
}

pub(crate) fn collect_spec_kind(k: &SpecKind, refs: &mut NameSet)
    ensures
        final(refs)@ == old(refs)@ + spec_kind_refs(*k),
{
    match k {
        SpecKind::Dict { methods } => collect_second(methods, refs),
        SpecKind::DictCtor { methods } => collect_second(methods, refs),
        SpecKind::ListEq(n) => refs.insert(n.as_str()),
        SpecKind::MaybeEq(n) => refs.insert(n.as_str()),
        SpecKind::ShowList(n) => refs.insert(n.as_str()),
        SpecKind::ShowMaybe(n) => refs.insert(n.as_str()),
        SpecKind::TupleEq(ns) => {
            let mut i: usize = 0;
            while i < ns.len()
                invariant
                    i <= ns@.len(),
                    refs@ == old(refs)@ + Set::new(|n: Seq<char>| exists|j: int| 0 <= j < i && #[trigger] ns@[j]@ == n),
                decreases ns@.len() - i,
            {
                refs.insert(ns[i].as_str());
                i = i + 1;
            }
        },
        _ => {},
    }
}

/// Insert the second component of every pair.
fn collect_second(ms: &Vec<(String, String)>, refs: &mut NameSet)
    ensures
        final(refs)@ == old(refs)@ + Set::new(|n: Seq<char>| exists|i: int| 0 <= i < ms@.len() && #[trigger] ms@[i].1@ == n),
{
    let mut i: usize = 0;
    while i < ms.len()
        invariant
            i <= ms@.len(),
            refs@ == old(refs)@ + Set::new(|n: Seq<char>| exists|j: int| 0 <= j < i && #[trigger] ms@[j].1@ == n),
        decreases ms@.len() - i,
    {
        refs.insert(ms[i].1.as_str());
        i = i + 1;
    }
}

fn collect_expr(e: &TExpr, refs: &mut NameSet)
    ensures
        final(refs)@ == old(refs)@ + expr_refs(*e),
    decreases e,
{
    match &e.kind {
        TExprKind::Var(n) => refs.insert(n.as_str()),
        TExprKind::Con(n) => refs.insert(n.as_str()),
        TExprKind::OpFunc(n) => refs.insert(n.as_str()),
        TExprKind::Lit(_) => {},
        TExprKind::App(f, a) => {
            collect_expr(f, refs);
            collect_expr(a, refs);
        },
        TExprKind::InfixApp { op, lhs, rhs } => {
            collect_expr(lhs, refs);
            collect_expr(rhs, refs);
            refs.insert(op.as_str());
        },
        TExprKind::Lambda { params: _, body } => collect_expr(body, refs),
        TExprKind::Negate(x) => collect_expr(x, refs),
        TExprKind::Paren(x) => collect_expr(x, refs),
        TExprKind::If { cond, then_branch, else_branch } => {
            collect_expr(cond, refs);
            collect_expr(then_branch, refs);
            collect_expr(else_branch, refs);
        },
        TExprKind::Case { scrutinee, branches } => {
            collect_expr(scrutinee, refs);
            collect_branches(branches, refs);
        },
        TExprKind::Let { binds, body } => {
            collect_binds(binds, refs);
            collect_expr(body, refs);
        },
        TExprKind::Tuple(elems) => collect_exprs(elems, refs),
        TExprKind::SpecCall { original: _, specialized, args } => {
            collect_spec_kind(specialized, refs);
            collect_exprs(args, refs);
        },
        TExprKind::DictCall { func_name, dict_args, value_args } => {
            collect_exprs(dict_args, refs);
            collect_exprs(value_args, refs);
            refs.insert(func_name.as_str());
        },
        TExprKind::DictMethod { dict, method_name } => {
            collect_expr(dict, refs);
            refs.insert(method_name.as_str());
        },
        TExprKind::DictAccess { class_name: _, method_name } => refs.insert(method_name.as_str()),
        TExprKind::RecordUpdate { record, updates } => {
            collect_expr(record, refs);
            collect_updates(updates, refs);
        },
        TExprKind::OutgoingCallback { callee, arity: _ } => collect_expr(callee, refs),
        TExprKind::FfiMaybeArg { value } => collect_expr(value, refs),
    }
}

fn collect_exprs(es: &Vec<TExpr>, refs: &mut NameSet)
    ensures
        final(refs)@ == old(refs)@ + exprs_refs(es@),
    decreases es,
{
    let mut i: usize = 0;
    while i < es.len()
        invariant
            i <= es@.len(),
            refs@ == old(refs)@ + exprs_refs(es@.take(i as int)),
        decreases es@.len() - i,
    {
        assert(decreases_to!(es => es@[i as int]));
        collect_expr(&es[i], refs);
        assert(es@.take(i as int + 1).drop_last() =~= es@.take(i as int));
        i = i + 1;
    }
    assert(es@.take(es@.len() as int) =~= es@);
}

fn collect_updates(us: &Vec<(String, usize, TExpr)>, refs: &mut NameSet)
    ensures
        final(refs)@ == old(refs)@ + updates_refs(us@),
    decreases us,
{
    let mut i: usize = 0;
    while i < us.len()
        invariant
            i <= us@.len(),
            refs@ == old(refs)@ + updates_refs(us@.take(i as int)),
        decreases us@.len() - i,
    {
        assert(decreases_to!(us => us@[i as int]));
        collect_expr(&us[i].2, refs);
        assert(us@.take(i as int + 1).drop_last() =~= us@.take(i as int));
        i = i + 1;
    }
    assert(us@.take(us@.len() as int) =~= us@);
}

fn collect_guards(gs: &Vec<TGuard>, refs: &mut NameSet)
    ensures
        final(refs)@ == old(refs)@ + guards_refs(gs@),
    decreases gs,
{
    let mut i: usize = 0;
    while i < gs.len()
        invariant
            i <= gs@.len(),
            refs@ == old(refs)@ + guards_refs(gs@.take(i as int)),
        decreases gs@.len() - i,
    {
        assert(decreases_to!(gs => gs@[i as int]));
        collect_expr(&gs[i].condition, refs);
        collect_expr(&gs[i].body, refs);
        assert(gs@.take(i as int + 1).drop_last() =~= gs@.take(i as int));
        i = i + 1;
    }
    assert(gs@.take(gs@.len() as int) =~= gs@);
}

fn collect_branches(bs: &Vec<TCaseBranch>, refs: &mut NameSet)
    ensures
        final(refs)@ == old(refs)@ + branches_refs(bs@),
    decreases bs,
{
    let mut i: usize = 0;
    while i < bs.len()
        invariant
            i <= bs@.len(),
            refs@ == old(refs)@ + branches_refs(bs@.take(i as int)),
        decreases bs@.len() - i,
    {
        assert(decreases_to!(bs => bs@[i as int]));
        collect_pattern(&bs[i].pattern, refs);
        collect_guards(&bs[i].guards, refs);
        collect_expr(&bs[i].body, refs);
        assert(bs@.take(i as int + 1).drop_last() =~= bs@.take(i as int));
        i = i + 1;
    }
    assert(bs@.take(bs@.len() as int) =~= bs@);
}

fn collect_binds(bs: &Vec<TLocalDef>, refs: &mut NameSet)
    ensures
        final(refs)@ == old(refs)@ + binds_refs(bs@),
    decreases bs,
{
    let mut i: usize = 0;
    while i < bs.len()
        invariant
            i <= bs@.len(),
            refs@ == old(refs)@ + binds_refs(bs@.take(i as int)),
        decreases bs@.len() - i,
    {
        assert(decreases_to!(bs => bs@[i as int]));
        collect_patterns(&bs[i].patterns, refs);
        collect_expr(&bs[i].body, refs);
        assert(bs@.take(i as int + 1).drop_last() =~= bs@.take(i as int));
        i = i + 1;
    }
    assert(bs@.take(bs@.len() as int) =~= bs@);
}

/// The out-edges of one function.
fn function_refs(f: &TFunction) -> (r: NameSet)
    ensures
        r@ == fn_refs(*f),
{
    let mut refs = NameSet::new();
    let mut i: usize = 0;
    while i < f.clauses.len()
        invariant
            i <= f.clauses@.len(),
            refs@ == clauses_refs(f.clauses@.take(i as int)),
        decreases f.clauses@.len() - i,
    {
        let c = &f.clauses[i];
        let ghost before = refs@;
        collect_patterns(&c.patterns, &mut refs);
        collect_guards(&c.guards, &mut refs);
        collect_expr(&c.body, &mut refs);
        collect_binds(&c.where_binds, &mut refs);
        assert(f.clauses@.take(i as int + 1).drop_last() =~= f.clauses@.take(i as int));
        assert(refs@ =~= before + clause_refs(*c));
        i = i + 1;
    }
    assert(f.clauses@.take(f.clauses@.len() as int) =~= f.clauses@);
    refs
}

// ---------------------------------------------------------------------
// Reachability
// ---------------------------------------------------------------------

/// The function universe: top-level functions, then instance methods.
pub open spec fn univ(m: TModule) -> Seq<TFunction> {
    m.functions@ + m.instance_fns@
}

/// Some function of `u` is named `n`.
pub open spec fn defined(u: Seq<TFunction>, n: Seq<char>) -> bool {
    exists|i: int| 0 <= i < u.len() && #[trigger] u[i].name@ == n
}

/// The out-edges of the name `n`: everything any definition named `n`
/// references.
pub open spec fn edges(u: Seq<TFunction>, n: Seq<char>) -> Set<Seq<char>> {
    Set::new(|c: Seq<char>| exists|i: int| 0 <= i < u.len() && u[i].name@ == n && #[trigger] fn_refs(u[i]).contains(c))
}

/// No function of `kept` references a function of `u` that is missing from
/// `kept`.
pub open spec fn refs_closed(kept: Seq<TFunction>, u: Seq<TFunction>) -> bool {
    forall|i: int, c: Seq<char>| 0 <= i < kept.len() && #[trigger] fn_refs(kept[i]).contains(c) && defined(u, c)
        ==> defined(kept, c)
}

/// The entry points: `main` when the module has one, and every export,
/// as far as the module defines them.
pub open spec fn is_root(m: TModule, n: Seq<char>) -> bool {
    &&& defined(univ(m), n)
    &&& ((m.has_main && n == "main"@) || exists|i: int| 0 <= i < m.exports@.len() && #[trigger] m.exports@[i]@ == n)
}

/// `path` starts at an entry point and each later name is a defined
/// name the previous one references.
pub open spec fn is_path(m: TModule, path: Seq<Seq<char>>) -> bool {
    &&& path.len() > 0
    &&& is_root(m, path[0])
    &&& forall|i: int| 0 < i < path.len() ==> defined(univ(m), #[trigger] path[i])
            && edges(univ(m), path[i - 1]).contains(path[i])
}

/// `n` is reachable from the entry points.
pub open spec fn live(m: TModule, n: Seq<char>) -> bool {
    exists|path: Seq<Seq<char>>| #[trigger] is_path(m, path) && path.last() == n
}

/// A constructor (or any name) some live function references.
pub open spec fn used(m: TModule, c: Seq<char>) -> bool {
    exists|p: Seq<char>| #[trigger] live(m, p) && edges(univ(m), p).contains(c)
}

/// Some constructor of `d` is used by live code.
pub open spec fn data_live(m: TModule, d: TDataDef) -> bool {
    exists|j: int| 0 <= j < d.constructors@.len() && #[trigger] used(m, d.constructors@[j].name@)
}

/// The functions of `s` with live names, in order.
pub open spec fn keep_fns(s: Seq<TFunction>, m: TModule) -> Seq<TFunction>
    decreases s.len(),
{
    if s.len() == 0 {
        s
    } else if live(m, s.last().name@) {
        keep_fns(s.drop_last(), m).push(s.last())
    } else {
        keep_fns(s.drop_last(), m)
    }
}

/// The data definitions of `s` that live code uses (`keep`), or the
/// others (`!keep`), in order.
pub open spec fn part_data(s: Seq<TDataDef>, m: TModule, keep: bool) -> Seq<TDataDef>
    decreases s.len(),
{
    if s.len() == 0 {
        s
    } else if data_live(m, s.last()) == keep {
        part_data(s.drop_last(), m, keep).push(s.last())
    } else {
        part_data(s.drop_last(), m, keep)
    }
}

/// Elements of `s` whose flag is set, in order.
pub open spec fn filter_by<T>(s: Seq<T>, flags: Seq<bool>) -> Seq<T>
    decreases s.len(),
{
    if s.len() == 0 {
        s
    } else if flags[s.len() - 1] {
        filter_by(s.drop_last(), flags).push(s.last())
    } else {
        filter_by(s.drop_last(), flags)
    }
}

pub open spec fn count_false(s: Seq<bool>) -> nat
    decreases s.len(),
{
    if s.len() == 0 {
        0
    } else {
        count_false(s.drop_last()) + if s.last() { 0nat } else { 1nat }
    }
}

proof fn lemma_count_update(s: Seq<bool>, j: int)
    requires
        0 <= j < s.len(),
    ensures
        count_false(s.update(j, true)) == count_false(s) - (if s[j] { 0int } else { 1int }),
    decreases s.len(),
{
    if j == s.len() - 1 {
        assert(s.update(j, true).drop_last() =~= s.drop_last());
    } else {
        lemma_count_update(s.drop_last(), j);
        assert(s.update(j, true).drop_last() =~= s.drop_last().update(j, true));
    }
}




/// Live functions reach only live functions: a kept function never
/// references a defined function that is dropped.
pub proof fn lemma_live_closed(m: TModule, p: Seq<char>, c: Seq<char>)
    requires
        live(m, p),
        edges(univ(m), p).contains(c),
        defined(univ(m), c),
    ensures
        live(m, c),
{
    let path = choose|path: Seq<Seq<char>>| #[trigger] is_path(m, path) && path.last() == p;
    let p2 = path.push(c);
    assert forall|i: int| 0 < i < p2.len() implies defined(univ(m), #[trigger] p2[i])
        && edges(univ(m), p2[i - 1]).contains(p2[i]) by {
        if i < path.len() {
            assert(p2[i] == path[i] && p2[i - 1] == path[i - 1]);
        }
    }
    assert(is_path(m, p2));
}

/// The entry points are live.
pub proof fn lemma_roots_live(m: TModule, n: Seq<char>)
    requires
        is_root(m, n),
    ensures
        live(m, n),
{
    assert(is_path(m, seq![n]));
}

/// Only defined names are live.
pub proof fn lemma_live_defined(m: TModule, n: Seq<char>)
    requires
        live(m, n),
    ensures
        defined(univ(m), n),
{
    let path = choose|path: Seq<Seq<char>>| #[trigger] is_path(m, path) && path.last() == n;
    if path.len() == 1 {
        assert(is_root(m, path[0]));
    } else {
        assert(defined(univ(m), path[path.len() - 1]));
    }
}

/// A kept function has a live name and comes from the input.
pub proof fn lemma_kept_live(s: Seq<TFunction>, m: TModule, i: int)
    requires
        0 <= i < keep_fns(s, m).len(),
    ensures
        live(m, keep_fns(s, m)[i].name@),
        s.contains(keep_fns(s, m)[i]),
    decreases s.len(),
{
    if s.len() > 0 {
        let t = keep_fns(s.drop_last(), m);
        if live(m, s.last().name@) && i == t.len() {
            assert(s[s.len() - 1] == s.last());
        } else {
            lemma_kept_live(s.drop_last(), m, i);
            let w = choose|w: int| 0 <= w < s.drop_last().len() && s.drop_last()[w] == t[i];
            assert(s[w] == t[i]);
        }
    }
}

/// Every function with a live name is kept.
pub proof fn lemma_live_kept(s: Seq<TFunction>, m: TModule, j: int)
    requires
        0 <= j < s.len(),
        live(m, s[j].name@),
    ensures
        keep_fns(s, m).contains(s[j]),
    decreases s.len(),
{
    let t = keep_fns(s.drop_last(), m);
    if j == s.len() - 1 {
        assert(keep_fns(s, m)[t.len() as int] == s[j]);
    } else {
        lemma_live_kept(s.drop_last(), m, j);
        let w = choose|w: int| 0 <= w < t.len() && t[w] == s.drop_last()[j];
        if live(m, s.last().name@) {
            assert(keep_fns(s, m)[w] == s[j]);
        }
    }
}

/// No kept function references a defined function that is dropped.
pub proof fn lemma_kept_closed(m: TModule)
    ensures
        refs_closed(keep_fns(m.functions@, m) + keep_fns(m.instance_fns@, m), univ(m)),
{
    let u = univ(m);
    let fs = m.functions@;
    let is = m.instance_fns@;
    let kf = keep_fns(fs, m);
    let ki = keep_fns(is, m);
    let kept = kf + ki;
    assert forall|i: int, c: Seq<char>| 0 <= i < kept.len() && #[trigger] fn_refs(kept[i]).contains(c) && defined(u, c)
        implies defined(kept, c) by {
        let f = kept[i];
        if i < kf.len() {
            assert(kept[i] == kf[i]);
            lemma_kept_live(fs, m, i);
            let w = choose|w: int| 0 <= w < fs.len() && fs[w] == f;
            assert(u[w] == f);
            assert(edges(u, f.name@).contains(c));
        } else {
            assert(kept[i] == ki[i - kf.len()]);
            lemma_kept_live(is, m, i - kf.len());
            let w = choose|w: int| 0 <= w < is.len() && is[w] == f;
            assert(u[fs.len() + w] == f);
            assert(edges(u, f.name@).contains(c));
        }
        lemma_live_closed(m, f.name@, c);
        let j = choose|j: int| 0 <= j < u.len() && #[trigger] u[j].name@ == c;
        if j < fs.len() {
            assert(u[j] == fs[j]);
            lemma_live_kept(fs, m, j);
            let w = choose|w: int| 0 <= w < kf.len() && kf[w] == fs[j];
            assert(kept[w] == kf[w]);
            assert(kept[w].name@ == c);
        } else {
            assert(u[j] == is[j - fs.len()]);
            lemma_live_kept(is, m, j - fs.len());
            let w = choose|w: int| 0 <= w < ki.len() && ki[w] == is[j - fs.len()];
            assert(kept[kf.len() + w] == ki[w]);
            assert(kept[kf.len() + w].name@ == c);
        }
    }
}

proof fn lemma_filter_fns(s: Seq<TFunction>, flags: Seq<bool>, m: TModule)
    requires
        flags.len() == s.len(),
        forall|i: int| 0 <= i < s.len() ==> flags[i] == live(m, #[trigger] s[i].name@),
    ensures
        filter_by(s, flags) == keep_fns(s, m),
    decreases s.len(),
{
    if s.len() > 0 {
        lemma_filter_fns(s.drop_last(), flags.drop_last(), m);
        lemma_filter_prefix(s.drop_last(), flags, flags.drop_last());
    }
}

proof fn lemma_filter_data(s: Seq<TDataDef>, flags: Seq<bool>, m: TModule, keep: bool)
    requires
        flags.len() == s.len(),
        forall|i: int| 0 <= i < s.len() ==> flags[i] == (data_live(m, #[trigger] s[i]) == keep),
    ensures
        filter_by(s, flags) == part_data(s, m, keep),
    decreases s.len(),
{
    if s.len() > 0 {
        lemma_filter_data(s.drop_last(), flags.drop_last(), m, keep);
        lemma_filter_prefix(s.drop_last(), flags, flags.drop_last());
    }
}

/// `filter_by` reads only the flags of existing positions.
proof fn lemma_filter_prefix<T>(s: Seq<T>, f1: Seq<bool>, f2: Seq<bool>)
    requires
        s.len() <= f1.len(),
        s.len() <= f2.len(),
        forall|i: int| 0 <= i < s.len() ==> f1[i] == f2[i],
    ensures
        filter_by(s, f1) == filter_by(s, f2),
    decreases s.len(),
{
    if s.len() > 0 {
        lemma_filter_prefix(s.drop_last(), f1, f2);
    }
}

// ---------------------------------------------------------------------
// The marking
// ---------------------------------------------------------------------

/// Marks agree on every definition of one name.
spec fn consistent(u: Seq<TFunction>, marked: Seq<bool>) -> bool {
    &&& marked.len() == u.len()
    &&& forall|i: int, j: int| 0 <= i < u.len() && 0 <= j < u.len() && u[i].name@ == u[j].name@
            ==> #[trigger] marked[i] == #[trigger] marked[j]
}

/// Only live names are marked.
spec fn sound(m: TModule, marked: Seq<bool>) -> bool {
    forall|i: int| 0 <= i < marked.len() && #[trigger] marked[i] ==> live(m, univ(m)[i].name@)
}

spec fn marked_name(u: Seq<TFunction>, marked: Seq<bool>, n: Seq<char>) -> bool {
    exists|i: int| 0 <= i < u.len() && #[trigger] marked[i] && u[i].name@ == n
}

spec fn roots_marked(m: TModule, marked: Seq<bool>) -> bool {
    forall|n: Seq<char>| #[trigger] is_root(m, n) ==> marked_name(univ(m), marked, n)
}

/// The defined references of a marked definition are marked.
spec fn closed_at(u: Seq<TFunction>, marked: Seq<bool>, i: int) -> bool {
    marked[i] ==> forall|c: Seq<char>| #[trigger] fn_refs(u[i]).contains(c) && defined(u, c)
        ==> marked_name(u, marked, c)
}

fn fn_at(m: &TModule, i: usize) -> (r: &TFunction)
    requires
        i < univ(*m).len(),
    ensures
        *r == univ(*m)[i as int],
{
    if i < m.functions.len() {
        &m.functions[i]
    } else {
        &m.instance_fns[i - m.functions.len()]
    }
}

/// Mark every definition named `c`; report whether any was unmarked.
fn mark_name(m: &TModule, marked: &mut Vec<bool>, c: &str) -> (newly: bool)
    requires
        consistent(univ(*m), old(marked)@),
        sound(*m, old(marked)@),
        defined(univ(*m), c@) ==> live(*m, c@),
    ensures
        consistent(univ(*m), final(marked)@),
        sound(*m, final(marked)@),
        forall|j: int| 0 <= j < univ(*m).len() ==> #[trigger] final(marked)@[j] == (old(marked)@[j] || univ(*m)[j].name@ == c@),
        count_false(final(marked)@) <= count_false(old(marked)@),
        newly ==> count_false(final(marked)@) < count_false(old(marked)@),
        !newly ==> final(marked)@ == old(marked)@,
{
    let ghost u = univ(*m);
    let total = marked.len();
    let mut newly = false;
    let mut j: usize = 0;
    while j < total
        invariant
            total == u.len(),
            u == univ(*m),
            marked@.len() == total,
            j <= total,
            forall|k: int| 0 <= k < j ==> #[trigger] marked@[k] == (old(marked)@[k] || u[k].name@ == c@),
            forall|k: int| j <= k < total ==> #[trigger] marked@[k] == old(marked)@[k],
            count_false(marked@) <= count_false(old(marked)@),
            newly ==> count_false(marked@) < count_false(old(marked)@),
            !newly ==> marked@ == old(marked)@,
        decreases total - j,
    {
        if !marked[j] && crate::text::str_eq(fn_at(m, j).name.as_str(), c) {
            proof { lemma_count_update(marked@, j as int); }
            marked.set(j, true);
            newly = true;
        }
        j = j + 1;
    }
    proof {
        assert forall|i: int, k: int| 0 <= i < u.len() && 0 <= k < u.len() && u[i].name@ == u[k].name@
            implies #[trigger] marked@[i] == #[trigger] marked@[k] by {
            assert(old(marked)@[i] == old(marked)@[k]);
        }
        assert forall|i: int| 0 <= i < marked@.len() && #[trigger] marked@[i] implies live(*m, univ(*m)[i].name@) by {
            if !old(marked)@[i] {
                assert(u[i].name@ == c@);
                assert(defined(u, c@));
            }
        }
    }
    newly
}

/// Marking only grows: marked names stay marked, so do marked roots.
proof fn lemma_grow(u: Seq<TFunction>, before: Seq<bool>, after: Seq<bool>)
    requires
        before.len() == u.len(),
        after.len() == u.len(),
        forall|j: int| 0 <= j < u.len() && #[trigger] before[j] ==> after[j],
    ensures
        forall|n: Seq<char>| marked_name(u, before, n) ==> marked_name(u, after, n),
{
    assert forall|n: Seq<char>| marked_name(u, before, n) implies marked_name(u, after, n) by {
        let w = choose|w: int| 0 <= w < u.len() && #[trigger] before[w] && u[w].name@ == n;
        assert(after[w]);
    }
}

/// Every live name is marked, given marked roots and closure.
proof fn lemma_path_marked(m: TModule, marked: Seq<bool>, path: Seq<Seq<char>>, i: int)
    requires
        consistent(univ(m), marked),
        roots_marked(m, marked),
        forall|j: int| 0 <= j < univ(m).len() ==> closed_at(univ(m), marked, j),
        is_path(m, path),
        0 <= i < path.len(),
    ensures
        marked_name(univ(m), marked, path[i]),
    decreases i,
{
    let u = univ(m);
    if i == 0 {
        assert(is_root(m, path[0]));
    } else {
        lemma_path_marked(m, marked, path, i - 1);
        let p = path[i - 1];
        let c = path[i];
        assert(defined(u, c) && edges(u, p).contains(c));
        let w = choose|w: int| 0 <= w < u.len() && #[trigger] marked[w] && u[w].name@ == p;
        let l = choose|l: int| 0 <= l < u.len() && u[l].name@ == p && #[trigger] fn_refs(u[l]).contains(c);
        assert(marked[w] == marked[l]);
        assert(closed_at(u, marked, l));
    }
}

proof fn lemma_complete(m: TModule, marked: Seq<bool>, n: Seq<char>)
    requires
        consistent(univ(m), marked),
        roots_marked(m, marked),
        forall|j: int| 0 <= j < univ(m).len() ==> closed_at(univ(m), marked, j),
        live(m, n),
    ensures
        marked_name(univ(m), marked, n),
{
    let path = choose|path: Seq<Seq<char>>| #[trigger] is_path(m, path) && path.last() == n;
    lemma_path_marked(m, marked, path, path.len() - 1);
}

/// Keep the elements whose flag is set, in order.
fn filter_vec<T>(v: Vec<T>, flags: &Vec<bool>) -> (r: Vec<T>)
    requires
        flags@.len() == v@.len(),
    ensures
        r@ == filter_by(v@, flags@),
{
    let ghost orig = v@;
    let len0 = v.len();
    let mut v = v;
    let mut out: Vec<T> = Vec::new();
    let mut i: usize = 0;
    while v.len() > 0
        invariant
            i <= orig.len(),
            orig.len() == len0,
            v@ == orig.skip(i as int),
            out@ == filter_by(orig.take(i as int), flags@),
            flags@.len() == orig.len(),
        decreases v@.len(),
    {
        let x = v.remove(0);
        proof {
            assert(orig.take(i as int + 1).drop_last() =~= orig.take(i as int));
            assert(orig.take(i as int + 1).last() == x);
        }
        if flags[i] {
            out.push(x);
        }
        assert(v@ =~= orig.skip(i as int + 1));
        i = i + 1;
    }
    assert(orig.take(i as int) =~= orig);
    out
}

/// Split `v` by its flags: the flagged elements, then the others, each in
/// order.
fn partition_vec<T>(v: Vec<T>, keep: &Vec<bool>, drop: &Vec<bool>) -> (r: (Vec<T>, Vec<T>))
    requires
        keep@.len() == v@.len(),
        drop@.len() == v@.len(),
        forall|i: int| 0 <= i < v@.len() ==> #[trigger] drop@[i] == !keep@[i],
    ensures
        r.0@ == filter_by(v@, keep@),
        r.1@ == filter_by(v@, drop@),
{
    let ghost orig = v@;
    let len0 = v.len();
    let mut v = v;
    let mut yes: Vec<T> = Vec::new();
    let mut no: Vec<T> = Vec::new();
    let mut i: usize = 0;
    while v.len() > 0
        invariant
            i <= orig.len(),
            orig.len() == len0,
            v@ == orig.skip(i as int),
            yes@ == filter_by(orig.take(i as int), keep@),
            no@ == filter_by(orig.take(i as int), drop@),
            keep@.len() == orig.len(),
            drop@.len() == orig.len(),
            forall|j: int| 0 <= j < orig.len() ==> #[trigger] drop@[j] == !keep@[j],
        decreases v@.len(),
    {
        let x = v.remove(0);
        proof {
            assert(orig.take(i as int + 1).drop_last() =~= orig.take(i as int));
            assert(orig.take(i as int + 1).last() == x);
        }
        if keep[i] {
            yes.push(x);
        } else {
            no.push(x);
        }
        assert(v@ =~= orig.skip(i as int + 1));
        i = i + 1;
    }
    assert(orig.take(i as int) =~= orig);
    (yes, no)
}

/// Drop functions and instance methods not reachable from `main` or an
/// export; move `data` definitions no live code constructs or matches to
/// `dropped_data_defs`.
pub fn eliminate(m: TModule) -> (r: TModule)
    requires
        m.passes_run@.len() > 0,
        m.passes_run@.last()@ == "split"@,
        m.functions@.len() + m.instance_fns@.len() <= usize::MAX,
    ensures
        r.functions@ == keep_fns(m.functions@, m),
        r.instance_fns@ == keep_fns(m.instance_fns@, m),
        r.data_defs@ == part_data(m.data_defs@, m, true),
        r.dropped_data_defs@ == m.dropped_data_defs@ + part_data(m.data_defs@, m, false),
        r.exports == m.exports,
        r.has_main == m.has_main,
        r.passes_run@ == m.passes_run@.push(r.passes_run@.last()),
        r.passes_run@.last()@ == "dce"@,
        refs_closed(r.functions@ + r.instance_fns@, univ(m)),
{
    let ghost u = univ(m);
    let nf = m.functions.len();
    let total = nf + m.instance_fns.len();
    // Out-edges and last-definition flags for the whole universe.
    let mut refs: Vec<NameSet> = Vec::new();
    let mut marked: Vec<bool> = Vec::new();
    let mut i: usize = 0;
    while i < total
        invariant
            total == u.len(),
            u == univ(m),
            i <= total,
            refs@.len() == i,
            marked@.len() == i,
            forall|j: int| 0 <= j < i ==> (#[trigger] refs@[j])@ == fn_refs(u[j]),
            forall|j: int| 0 <= j < i ==> !(#[trigger] marked@[j]),
        decreases total - i,
    {
        let f = fn_at(&m, i);
        refs.push(function_refs(f));
        marked.push(false);
        i = i + 1;
    }
    // Seed the entry points.
    proof {
        assert(consistent(u, marked@));
        assert(sound(m, marked@));
    }
    if m.has_main {
        proof {
            if defined(u, "main"@) {
                lemma_roots_live(m, "main"@);
            }
        }
        mark_name(&m, &mut marked, "main");
        proof {
            if defined(u, "main"@) {
                let w = choose|w: int| 0 <= w < u.len() && #[trigger] u[w].name@ == "main"@;
                assert(marked@[w]);
            }
        }
    }
    let mut e: usize = 0;
    while e < m.exports.len()
        invariant
            total == u.len(),
            u == univ(m),
            consistent(u, marked@),
            sound(m, marked@),
            e <= m.exports@.len(),
            m.has_main && defined(u, "main"@) ==> marked_name(u, marked@, "main"@),
            forall|k: int| 0 <= k < e && defined(u, m.exports@[k]@) ==> marked_name(u, marked@, #[trigger] m.exports@[k]@),
        decreases m.exports@.len() - e,
    {
        let ghost before = marked@;
        proof {
            if defined(u, m.exports@[e as int]@) {
                assert(is_root(m, m.exports@[e as int]@));
                lemma_roots_live(m, m.exports@[e as int]@);
            }
        }
        mark_name(&m, &mut marked, m.exports[e].as_str());
        proof {
            assert forall|n: Seq<char>| marked_name(u, before, n) implies marked_name(u, marked@, n) by {
                let w = choose|w: int| 0 <= w < u.len() && #[trigger] before[w] && u[w].name@ == n;
                assert(marked@[w]);
            }
            if defined(u, m.exports@[e as int]@) {
                let w = choose|w: int| 0 <= w < u.len() && #[trigger] u[w].name@ == m.exports@[e as int]@;
                assert(marked@[w]);
            }
        }
        e = e + 1;
    }
    proof {
        assert forall|n: Seq<char>| #[trigger] is_root(m, n) implies marked_name(u, marked@, n) by {
            if !(m.has_main && n == "main"@) {
                let k = choose|k: int| 0 <= k < m.exports@.len() && #[trigger] m.exports@[k]@ == n;
            }
        }
    }
    // Close the marking under the references of marked definitions.
    loop
        invariant
            total == u.len(),
            u == univ(m),
            refs@.len() == total,
            forall|j: int| 0 <= j < total ==> (#[trigger] refs@[j])@ == fn_refs(u[j]),
            consistent(u, marked@),
            sound(m, marked@),
            roots_marked(m, marked@),
        ensures
            consistent(u, marked@),
            sound(m, marked@),
            roots_marked(m, marked@),
            forall|j: int| 0 <= j < total ==> closed_at(u, marked@, j),
        decreases count_false(marked@),
    {
        let ghost start = marked@;
        let mut changed = false;
        let mut i: usize = 0;
        while i < total
            invariant
                total == u.len(),
                u == univ(m),
                refs@.len() == total,
                forall|j: int| 0 <= j < total ==> (#[trigger] refs@[j])@ == fn_refs(u[j]),
                consistent(u, marked@),
                sound(m, marked@),
                roots_marked(m, marked@),
                i <= total,
                forall|j: int| 0 <= j < total && #[trigger] start[j] ==> marked@[j],
                changed ==> count_false(marked@) < count_false(start),
                !changed ==> marked@ == start,
                !changed ==> forall|j: int| 0 <= j < i ==> closed_at(u, marked@, j),
            decreases total - i,
        {
            if marked[i] {
                let names = refs[i].to_vec();
                let mut k: usize = 0;
                while k < names.len()
                    invariant
                        total == u.len(),
                        u == univ(m),
                        i < total,
                        marked@[i as int],
                        forall|c: Seq<char>| fn_refs(u[i as int]).contains(c) <==> exists|j: int| 0 <= j < names@.len() && #[trigger] names@[j]@ == c,
                        consistent(u, marked@),
                        sound(m, marked@),
                        roots_marked(m, marked@),
                        k <= names@.len(),
                        forall|j: int| 0 <= j < total && #[trigger] start[j] ==> marked@[j],
                        changed ==> count_false(marked@) < count_false(start),
                        !changed ==> marked@ == start,
                        !changed ==> forall|j: int| 0 <= j < k && defined(u, (#[trigger] names@[j])@) ==> marked_name(u, marked@, names@[j]@),
                        !changed ==> forall|j: int| 0 <= j < i ==> closed_at(u, start, j),
                    decreases names@.len() - k,
                {
                    let ghost before = marked@;
                    proof {
                        let c = names@[k as int]@;
                        assert(fn_refs(u[i as int]).contains(c));
                        if defined(u, c) {
                            assert(edges(u, u[i as int].name@).contains(c));
                            lemma_live_closed(m, u[i as int].name@, c);
                        }
                    }
                    let newly = mark_name(&m, &mut marked, names[k].as_str());
                    if newly {
                        changed = true;
                    }
                    proof {
                        assert forall|j: int| 0 <= j < total && #[trigger] start[j] implies marked@[j] by {
                            assert(before[j]);
                        }
                        lemma_grow(u, before, marked@);
                        let c = names@[k as int]@;
                        if defined(u, c) {
                            let w = choose|w: int| 0 <= w < u.len() && #[trigger] u[w].name@ == c;
                            assert(marked@[w]);
                        }
                    }
                    k = k + 1;
                }
                proof {
                    if !changed {
                        assert forall|c: Seq<char>| #[trigger] fn_refs(u[i as int]).contains(c) && defined(u, c)
                            implies marked_name(u, marked@, c) by {
                            let j = choose|j: int| 0 <= j < names@.len() && #[trigger] names@[j]@ == c;
                        }
                    }
                }
            }
            proof {
                if !changed {
                    assert(closed_at(u, marked@, i as int));
                }
            }
            i = i + 1;
        }
        if !changed {
            break;
        }
    }
    // Marked ⇔ live.
    proof {
        assert forall|j: int| 0 <= j < total implies #[trigger] marked@[j] == live(m, u[j].name@) by {
            if live(m, u[j].name@) {
                lemma_complete(m, marked@, u[j].name@);
                let w = choose|w: int| 0 <= w < u.len() && #[trigger] marked@[w] && u[w].name@ == u[j].name@;
                assert(marked@[w] == marked@[j]);
            }
        }
    }
    // Keep flags for the two function lists.
    let mut keep_f: Vec<bool> = Vec::new();
    let mut keep_i: Vec<bool> = Vec::new();
    let mut j: usize = 0;
    while j < total
        invariant
            total == u.len(),
            u == univ(m),
            nf == m.functions@.len(),
            marked@.len() == total,
            j <= total,
            j <= nf ==> keep_f@.len() == j && keep_i@.len() == 0,
            j > nf ==> keep_f@.len() == nf && keep_i@.len() == j - nf,
            forall|k: int| 0 <= k < keep_f@.len() ==> #[trigger] keep_f@[k] == marked@[k],
            forall|k: int| 0 <= k < keep_i@.len() ==> #[trigger] keep_i@[k] == marked@[nf + k],
        decreases total - j,
    {
        if j < nf {
            keep_f.push(marked[j]);
        } else {
            keep_i.push(marked[j]);
        }
        j = j + 1;
    }
    // Data liveness: some constructor referenced by a marked definition.
    let mut keep_d: Vec<bool> = Vec::new();
    let mut drop_d: Vec<bool> = Vec::new();
    let mut d: usize = 0;
    while d < m.data_defs.len()
        invariant
            total == u.len(),
            u == univ(m),
            refs@.len() == total,
            marked@.len() == total,
            forall|j: int| 0 <= j < total ==> (#[trigger] refs@[j])@ == fn_refs(u[j]),
            forall|j: int| 0 <= j < total ==> #[trigger] marked@[j] == live(m, u[j].name@),
            d <= m.data_defs@.len(),
            keep_d@.len() == d,
            drop_d@.len() == d,
            forall|k: int| 0 <= k < d ==> #[trigger] keep_d@[k] == data_live(m, m.data_defs@[k]),
            forall|k: int| 0 <= k < d ==> #[trigger] drop_d@[k] == !data_live(m, m.data_defs@[k]),
        decreases m.data_defs@.len() - d,
    {
        let def = &m.data_defs[d];
        let mut any = false;
        let mut c: usize = 0;
        while c < def.constructors.len()
            invariant
                total == u.len(),
                u == univ(m),
                refs@.len() == total,
                marked@.len() == total,
                forall|j: int| 0 <= j < total ==> (#[trigger] refs@[j])@ == fn_refs(u[j]),
                forall|j: int| 0 <= j < total ==> #[trigger] marked@[j] == live(m, u[j].name@),
                c <= def.constructors@.len(),
                any == exists|k: int| 0 <= k < c && #[trigger] used(m, def.constructors@[k].name@),
            decreases def.constructors@.len() - c,
        {
            let cname = def.constructors[c].name.as_str();
            let mut hit = false;
            let mut w: usize = 0;
            while w < total
                invariant
                    total == u.len(),
                    u == univ(m),
                    refs@.len() == total,
                    marked@.len() == total,
                    forall|j: int| 0 <= j < total ==> (#[trigger] refs@[j])@ == fn_refs(u[j]),
                    w <= total,
                    hit == exists|k: int| 0 <= k < w && #[trigger] marked@[k] && refs@[k]@.contains(cname@),
                decreases total - w,
            {
                if marked[w] && refs[w].contains(cname) {
                    hit = true;
                }
                w = w + 1;
            }
            proof {
                if hit {
                    let k = choose|k: int| 0 <= k < total && #[trigger] marked@[k] && refs@[k]@.contains(cname@);
                    assert(live(m, u[k].name@) && edges(u, u[k].name@).contains(cname@));
                    assert(used(m, cname@));
                } else if used(m, cname@) {
                    let p = choose|p: Seq<char>| #[trigger] live(m, p) && edges(u, p).contains(cname@);
                    let l = choose|l: int| 0 <= l < u.len() && u[l].name@ == p && #[trigger] fn_refs(u[l]).contains(cname@);
                    assert(marked@[l] && refs@[l]@.contains(cname@));
                }
            }
            if hit {
                any = true;
            }
            c = c + 1;
        }
        keep_d.push(any);
        drop_d.push(!any);
        d = d + 1;
    }
    let TModule { functions, instance_fns, data_defs, dropped_data_defs, exports, has_main, passes_run } = m;
    let ghost fs = functions@;
    let ghost is = instance_fns@;
    let ghost ds = data_defs@;
    let functions = filter_vec(functions, &keep_f);
    let instance_fns = filter_vec(instance_fns, &keep_i);
    let (data_defs, mut dropped) = partition_vec(data_defs, &keep_d, &drop_d);
    let mut dropped_data_defs = dropped_data_defs;
    dropped_data_defs.append(&mut dropped);
    let mut passes_run = passes_run;
    passes_run.push(crate::text::string_from("dce"));
    proof {
        lemma_filter_data(ds, keep_d@, m, true);
        lemma_filter_data(ds, drop_d@, m, false);
        assert forall|k: int| 0 <= k < fs.len() implies keep_f@[k] == live(m, #[trigger] fs[k].name@) by {
            assert(u[k] == fs[k]);
        }
        assert forall|k: int| 0 <= k < is.len() implies keep_i@[k] == live(m, #[trigger] is[k].name@) by {
            assert(u[nf + k] == is[k]);
        }
        lemma_filter_fns(fs, keep_f@, m);
        lemma_filter_fns(is, keep_i@, m);
        lemma_kept_closed(m);
    }
    TModule { functions, instance_fns, data_defs, dropped_data_defs, exports, has_main, passes_run }
}


// ---------------------------------------------------------------------
// Every mention is a reference
// ---------------------------------------------------------------------

/// `n` is named anywhere in `e` (a variable, constructor, operator,
/// dictionary function or method, or a function a specialization threads):
/// in every child of every node, both branches of an `if`, every
/// alternative, guard and binding.
pub open spec fn occurs(e: TExpr, n: Seq<char>) -> bool
    decreases e,
{
    match e.kind {
        TExprKind::Var(x) => x@ == n,
        TExprKind::Con(x) => x@ == n,
        TExprKind::OpFunc(x) => x@ == n,
        TExprKind::DictAccess { class_name: _, method_name } => method_name@ == n,
        TExprKind::App(f, a) => occurs(*f, n) || occurs(*a, n),
        TExprKind::InfixApp { op, lhs, rhs } => op@ == n || occurs(*lhs, n) || occurs(*rhs, n),
        TExprKind::Lambda { params: _, body } => occurs(*body, n),
        TExprKind::Negate(x) => occurs(*x, n),
        TExprKind::Paren(x) => occurs(*x, n),
        TExprKind::If { cond, then_branch, else_branch } => occurs(*cond, n) || occurs(*then_branch, n)
            || occurs(*else_branch, n),
        TExprKind::Case { scrutinee, branches } => occurs(*scrutinee, n) || occurs_branches(branches@, n),
        TExprKind::Let { binds, body } => occurs_binds(binds@, n) || occurs(*body, n),
        TExprKind::Tuple(es) => occurs_list(es@, n),
        TExprKind::SpecCall { original: _, specialized, args } => spec_kind_refs(specialized).contains(n)
            || occurs_list(args@, n),
        TExprKind::DictCall { func_name, dict_args, value_args } => func_name@ == n || occurs_list(dict_args@, n)
            || occurs_list(value_args@, n),
        TExprKind::DictMethod { dict, method_name } => method_name@ == n || occurs(*dict, n),
        TExprKind::RecordUpdate { record, updates } => occurs(*record, n) || occurs_updates(updates@, n),
        TExprKind::OutgoingCallback { callee, arity: _ } => occurs(*callee, n),
        TExprKind::FfiMaybeArg { value } => occurs(*value, n),
        _ => false,
    }
}

pub open spec fn occurs_list(s: Seq<TExpr>, n: Seq<char>) -> bool
    decreases s,
{
    s.len() > 0 && (occurs_list(s.drop_last(), n) || occurs(s.last(), n))
}

pub open spec fn occurs_updates(s: Seq<(String, usize, TExpr)>, n: Seq<char>) -> bool
    decreases s,
{
    s.len() > 0 && (occurs_updates(s.drop_last(), n) || occurs(s.last().2, n))
}

pub open spec fn occurs_guards(s: Seq<TGuard>, n: Seq<char>) -> bool
    decreases s,
{
    s.len() > 0 && (occurs_guards(s.drop_last(), n) || occurs(s.last().condition, n) || occurs(s.last().body, n))
}

pub open spec fn occurs_branches(s: Seq<TCaseBranch>, n: Seq<char>) -> bool
    decreases s,
{
    s.len() > 0 && (occurs_branches(s.drop_last(), n) || occurs_guards(s.last().guards@, n) || occurs(s.last().body, n))
}

pub open spec fn occurs_binds(s: Seq<TLocalDef>, n: Seq<char>) -> bool
    decreases s,
{
    s.len() > 0 && (occurs_binds(s.drop_last(), n) || occurs(s.last().body, n))
}

/// Every name an expression mentions is one of its references.
pub proof fn lemma_occurs_referenced(e: TExpr, n: Seq<char>)
    requires
        occurs(e, n),
    ensures
        expr_refs(e).contains(n),
    decreases e,
{
    match e.kind {
        TExprKind::App(f, a) => {
            if occurs(*f, n) { lemma_occurs_referenced(*f, n); } else { lemma_occurs_referenced(*a, n); }
        },
        TExprKind::InfixApp { op, lhs, rhs } => {
            if occurs(*lhs, n) { lemma_occurs_referenced(*lhs, n); } else if occurs(*rhs, n) { lemma_occurs_referenced(*rhs, n); }
        },
        TExprKind::Lambda { params: _, body } => lemma_occurs_referenced(*body, n),
        TExprKind::Negate(x) => lemma_occurs_referenced(*x, n),
        TExprKind::Paren(x) => lemma_occurs_referenced(*x, n),
        TExprKind::If { cond, then_branch, else_branch } => {
            if occurs(*cond, n) {
                lemma_occurs_referenced(*cond, n);
            } else if occurs(*then_branch, n) {
                lemma_occurs_referenced(*then_branch, n);
            } else {
                lemma_occurs_referenced(*else_branch, n);
            }
        },
        TExprKind::Case { scrutinee, branches } => {
            if occurs(*scrutinee, n) {
                lemma_occurs_referenced(*scrutinee, n);
            } else {
                lemma_occurs_branches(branches@, n);
            }
        },
        TExprKind::Let { binds, body } => {
            if occurs_binds(binds@, n) {
                lemma_occurs_binds(binds@, n);
            } else {
                lemma_occurs_referenced(*body, n);
            }
        },
        TExprKind::Tuple(es) => lemma_occurs_list(es@, n),
        TExprKind::SpecCall { original: _, specialized, args } => {
            if occurs_list(args@, n) {
                lemma_occurs_list(args@, n);
            }
        },
        TExprKind::DictCall { func_name, dict_args, value_args } => {
            if occurs_list(dict_args@, n) {
                lemma_occurs_list(dict_args@, n);
            } else if occurs_list(value_args@, n) {
                lemma_occurs_list(value_args@, n);
            }
        },
        TExprKind::DictMethod { dict, method_name } => {
            if occurs(*dict, n) {
                lemma_occurs_referenced(*dict, n);
            }
        },
        TExprKind::RecordUpdate { record, updates } => {
            if occurs(*record, n) {
                lemma_occurs_referenced(*record, n);
            } else {
                lemma_occurs_updates(updates@, n);
            }
        },
        TExprKind::OutgoingCallback { callee, arity: _ } => lemma_occurs_referenced(*callee, n),
        TExprKind::FfiMaybeArg { value } => lemma_occurs_referenced(*value, n),
        _ => {},
    }
}

proof fn lemma_occurs_list(s: Seq<TExpr>, n: Seq<char>)
    requires
        occurs_list(s, n),
    ensures
        exprs_refs(s).contains(n),
    decreases s,
{
    if occurs_list(s.drop_last(), n) {
        lemma_occurs_list(s.drop_last(), n);
    } else {
        lemma_occurs_referenced(s.last(), n);
    }
}

proof fn lemma_occurs_updates(s: Seq<(String, usize, TExpr)>, n: Seq<char>)
    requires
        occurs_updates(s, n),
    ensures
        updates_refs(s).contains(n),
    decreases s,
{
    if occurs_updates(s.drop_last(), n) {
        lemma_occurs_updates(s.drop_last(), n);
    } else {
        lemma_occurs_referenced(s.last().2, n);
    }
}

proof fn lemma_occurs_guards(s: Seq<TGuard>, n: Seq<char>)
    requires
        occurs_guards(s, n),
    ensures
        guards_refs(s).contains(n),
    decreases s,
{
    if occurs_guards(s.drop_last(), n) {
        lemma_occurs_guards(s.drop_last(), n);
    } else if occurs(s.last().condition, n) {
        lemma_occurs_referenced(s.last().condition, n);
    } else {
        lemma_occurs_referenced(s.last().body, n);
    }
}

proof fn lemma_occurs_branches(s: Seq<TCaseBranch>, n: Seq<char>)
    requires
        occurs_branches(s, n),
    ensures
        branches_refs(s).contains(n),
    decreases s,
{
    if occurs_branches(s.drop_last(), n) {
        lemma_occurs_branches(s.drop_last(), n);
    } else if occurs_guards(s.last().guards@, n) {
        lemma_occurs_guards(s.last().guards@, n);
    } else {
        lemma_occurs_referenced(s.last().body, n);
    }
}

proof fn lemma_occurs_binds(s: Seq<TLocalDef>, n: Seq<char>)
    requires
        occurs_binds(s, n),
    ensures
        binds_refs(s).contains(n),
    decreases s,
{
    if occurs_binds(s.drop_last(), n) {
        lemma_occurs_binds(s.drop_last(), n);
    } else {
        lemma_occurs_referenced(s.last().body, n);
    }
}

proof fn lemma_clause_refs_in(cs: Seq<TClause>, c: int, n: Seq<char>)
    requires
        0 <= c < cs.len(),
        clause_refs(cs[c]).contains(n),
    ensures
        clauses_refs(cs).contains(n),
    decreases cs.len(),
{
    if c < cs.len() - 1 {
        assert(cs.drop_last()[c] == cs[c]);
        lemma_clause_refs_in(cs.drop_last(), c, n);
    }
}

/// A live function keeps alive every defined function its clauses name, in
/// their bodies, guards or where-bindings,
/// whichever branch of an `if` or `case` the mention sits in.
pub proof fn lemma_mentioned_is_live(m: TModule, i: int, c: int, n: Seq<char>)
    requires
        0 <= i < univ(m).len(),
        live(m, univ(m)[i].name@),
        0 <= c < univ(m)[i].clauses@.len(),
        occurs(univ(m)[i].clauses@[c].body, n) || occurs_guards(univ(m)[i].clauses@[c].guards@, n)
            || occurs_binds(univ(m)[i].clauses@[c].where_binds@, n),
        defined(univ(m), n),
    ensures
        live(m, n),
{
    let f = univ(m)[i];
    let cl = f.clauses@[c];
    if occurs(cl.body, n) {
        lemma_occurs_referenced(cl.body, n);
    } else if occurs_guards(cl.guards@, n) {
        lemma_occurs_guards(cl.guards@, n);
    } else {
        lemma_occurs_binds(cl.where_binds@, n);
    }
    assert(clause_refs(cl).contains(n));
    lemma_clause_refs_in(f.clauses@, c, n);
    assert(fn_refs(f).contains(n));
    assert(edges(univ(m), f.name@).contains(n));
    lemma_live_closed(m, f.name@, n);
}

} // verus!
