//! Parameter strictness of a whole module: the greatest fixed point of
//! the per-function rows.
//!
//! The rows are seeded first: a foreign function (one clause whose body
//! calls itself by its own name as a specialization) is strict in every
//! parameter; the compiler's ByteString and ST array primitives, the
//! monomorphic comparison methods and — unless the module defines a
//! function of that name — the runtime prelude functions get their known
//! rows; every other function starts strict in every position. Then the
//! same-named functions are analysed together round after round: a name's
//! row is what every one of its functions confirms under the current
//! rows, never more than it already claims, until a round changes nothing.

use vstd::prelude::*;
use crate::tir::{TExprKind, TClause, TFunction, TModule};
use crate::demanded::{StrictEnv, strict_rows};
use crate::params::{clause_row, kept_groups, arities_ok, and_rows, count_true, analyze_clause, and_rows_exec,
    all_true, bool_rows_eq, lemma_count_narrow};

verus! {

broadcast use vstd::string::group_string_axioms;

// ---------------------------------------------------------------------
// Known rows
// ---------------------------------------------------------------------

/// The compiler's ByteString and ST array primitives.
pub open spec fn builtin_rows() -> Seq<(Seq<char>, Seq<bool>)> {
    seq![
        ("bsLength"@, seq![true]),
        ("bsIndex"@, seq![true, true]),
        ("bsSub"@, seq![true, true, true]),
        ("bsNull"@, seq![true]),
        ("bsHead"@, seq![true]),
        ("bsTail"@, seq![true]),
        ("bsCons"@, seq![true, true]),
        ("bsSnoc"@, seq![true, true]),
        ("bsConcat"@, seq![true, true]),
        ("bsSingleton"@, seq![true]),
        ("bsReplicate"@, seq![true, true]),
        ("bsGetU16LE"@, seq![true, true]),
        ("bsGetU32LE"@, seq![true, true]),
        ("bsGetI8"@, seq![true, true]),
        ("bsGetI16LE"@, seq![true, true]),
        ("bsPutI16LE"@, seq![true, true, true]),
        ("bsToString"@, seq![true]),
        ("bsFromString"@, seq![true]),
        ("newSTArray"@, seq![true, false]),
        ("readSTArray"@, seq![true, true]),
        ("writeSTArray"@, seq![true, true, false]),
        ("modifySTArray"@, seq![true, true, true]),
        ("stArrayLength"@, seq![true]),
        ("newSTArrayFromList"@, seq![true]),
        ("stArrayToList"@, seq![true]),
        ("bsConcatList"@, seq![true]),
        ("bsPack"@, seq![true]),
    ]
}

/// The monomorphic comparison and string-append methods, strict in both
/// operands.
pub open spec fn binop_rows() -> Seq<(Seq<char>, Seq<bool>)> {
    seq![
        ("eq_Int"@, seq![true, true]),
        ("eq_Number"@, seq![true, true]),
        ("eq_String"@, seq![true, true]),
        ("eq_Bool"@, seq![true, true]),
        ("eq_ByteString"@, seq![true, true]),
        ("ord_lt__Int"@, seq![true, true]),
        ("ord_lt__Number"@, seq![true, true]),
        ("ord_lt__String"@, seq![true, true]),
        ("ord_lt__ByteString"@, seq![true, true]),
        ("ord_gt__Int"@, seq![true, true]),
        ("ord_gt__Number"@, seq![true, true]),
        ("ord_gt__String"@, seq![true, true]),
        ("ord_gt__ByteString"@, seq![true, true]),
        ("ord_le__Int"@, seq![true, true]),
        ("ord_le__Number"@, seq![true, true]),
        ("ord_le__String"@, seq![true, true]),
        ("ord_le__ByteString"@, seq![true, true]),
        ("ord_ge__Int"@, seq![true, true]),
        ("ord_ge__Number"@, seq![true, true]),
        ("ord_ge__String"@, seq![true, true]),
        ("ord_ge__ByteString"@, seq![true, true]),
        ("semigroup_String"@, seq![true, true]),
    ]
}

/// Runtime prelude functions, read off their runtime bodies.
pub open spec fn prelude_rows() -> Seq<(Seq<char>, Seq<bool>)> {
    seq![
        ("show"@, seq![true]),
        ("show_Int"@, seq![true]),
        ("show_Number"@, seq![true]),
        ("show_String"@, seq![true]),
        ("show_Bool"@, seq![true]),
        ("show_List_"@, seq![true]),
        ("show_Maybe"@, seq![true]),
        ("show_ByteString"@, seq![true]),
        ("show_HashMap"@, seq![true]),
        ("not"@, seq![true]),
        ("error"@, seq![true]),
        ("max"@, seq![true, true]),
        ("min"@, seq![true, true]),
        ("head"@, seq![true]),
        ("tail"@, seq![true]),
        ("map"@, seq![true, true]),
        ("filter"@, seq![true, true]),
        ("take"@, seq![true, false]),
        ("drop"@, seq![true, true]),
        ("zipWith"@, seq![true, true, true]),
    ]
}


fn mask1(a: bool) -> (r: Vec<bool>)
    ensures
        r@ == seq![a],
{
    let mut r: Vec<bool> = Vec::new();
    r.push(a);
    assert(r@ =~= seq![a]);
    r
}

fn mask2(a: bool, b: bool) -> (r: Vec<bool>)
    ensures
        r@ == seq![a, b],
{
    let mut r: Vec<bool> = Vec::new();
    r.push(a);
    r.push(b);
    assert(r@ =~= seq![a, b]);
    r
}

fn mask3(a: bool, b: bool, c: bool) -> (r: Vec<bool>)
    ensures
        r@ == seq![a, b, c],
{
    let mut r: Vec<bool> = Vec::new();
    r.push(a);
    r.push(b);
    r.push(c);
    assert(r@ =~= seq![a, b, c]);
    r
}

fn builtin_rows_exec() -> (r: Vec<(String, Vec<bool>)>)
    ensures
        strict_rows(r@) == builtin_rows(),
{
    let mut r: Vec<(String, Vec<bool>)> = Vec::new();
    r.push((crate::text::string_from("bsLength"), mask1(true)));
    r.push((crate::text::string_from("bsIndex"), mask2(true, true)));
    r.push((crate::text::string_from("bsSub"), mask3(true, true, true)));
    r.push((crate::text::string_from("bsNull"), mask1(true)));
    r.push((crate::text::string_from("bsHead"), mask1(true)));
    r.push((crate::text::string_from("bsTail"), mask1(true)));
    r.push((crate::text::string_from("bsCons"), mask2(true, true)));
    r.push((crate::text::string_from("bsSnoc"), mask2(true, true)));
    r.push((crate::text::string_from("bsConcat"), mask2(true, true)));
    r.push((crate::text::string_from("bsSingleton"), mask1(true)));
    r.push((crate::text::string_from("bsReplicate"), mask2(true, true)));
    r.push((crate::text::string_from("bsGetU16LE"), mask2(true, true)));
    r.push((crate::text::string_from("bsGetU32LE"), mask2(true, true)));
    r.push((crate::text::string_from("bsGetI8"), mask2(true, true)));
    r.push((crate::text::string_from("bsGetI16LE"), mask2(true, true)));
    r.push((crate::text::string_from("bsPutI16LE"), mask3(true, true, true)));
    r.push((crate::text::string_from("bsToString"), mask1(true)));
    r.push((crate::text::string_from("bsFromString"), mask1(true)));
    r.push((crate::text::string_from("newSTArray"), mask2(true, false)));
    r.push((crate::text::string_from("readSTArray"), mask2(true, true)));
    r.push((crate::text::string_from("writeSTArray"), mask3(true, true, false)));
    r.push((crate::text::string_from("modifySTArray"), mask3(true, true, true)));
    r.push((crate::text::string_from("stArrayLength"), mask1(true)));
    r.push((crate::text::string_from("newSTArrayFromList"), mask1(true)));
    r.push((crate::text::string_from("stArrayToList"), mask1(true)));
    r.push((crate::text::string_from("bsConcatList"), mask1(true)));
    r.push((crate::text::string_from("bsPack"), mask1(true)));
    assert(strict_rows(r@) =~= builtin_rows());
    r
}

fn binop_rows_exec() -> (r: Vec<(String, Vec<bool>)>)
    ensures
        strict_rows(r@) == binop_rows(),
{
    let mut r: Vec<(String, Vec<bool>)> = Vec::new();
    r.push((crate::text::string_from("eq_Int"), mask2(true, true)));
    r.push((crate::text::string_from("eq_Number"), mask2(true, true)));
    r.push((crate::text::string_from("eq_String"), mask2(true, true)));
    r.push((crate::text::string_from("eq_Bool"), mask2(true, true)));
    r.push((crate::text::string_from("eq_ByteString"), mask2(true, true)));
    r.push((crate::text::string_from("ord_lt__Int"), mask2(true, true)));
    r.push((crate::text::string_from("ord_lt__Number"), mask2(true, true)));
    r.push((crate::text::string_from("ord_lt__String"), mask2(true, true)));
    r.push((crate::text::string_from("ord_lt__ByteString"), mask2(true, true)));
    r.push((crate::text::string_from("ord_gt__Int"), mask2(true, true)));
    r.push((crate::text::string_from("ord_gt__Number"), mask2(true, true)));
    r.push((crate::text::string_from("ord_gt__String"), mask2(true, true)));
    r.push((crate::text::string_from("ord_gt__ByteString"), mask2(true, true)));
    r.push((crate::text::string_from("ord_le__Int"), mask2(true, true)));
    r.push((crate::text::string_from("ord_le__Number"), mask2(true, true)));
    r.push((crate::text::string_from("ord_le__String"), mask2(true, true)));
    r.push((crate::text::string_from("ord_le__ByteString"), mask2(true, true)));
    r.push((crate::text::string_from("ord_ge__Int"), mask2(true, true)));
    r.push((crate::text::string_from("ord_ge__Number"), mask2(true, true)));
    r.push((crate::text::string_from("ord_ge__String"), mask2(true, true)));
    r.push((crate::text::string_from("ord_ge__ByteString"), mask2(true, true)));
    r.push((crate::text::string_from("semigroup_String"), mask2(true, true)));
    assert(strict_rows(r@) =~= binop_rows());
    r
}

fn prelude_rows_exec() -> (r: Vec<(String, Vec<bool>)>)
    ensures
        strict_rows(r@) == prelude_rows(),
{
    let mut r: Vec<(String, Vec<bool>)> = Vec::new();
    r.push((crate::text::string_from("show"), mask1(true)));
    r.push((crate::text::string_from("show_Int"), mask1(true)));
    r.push((crate::text::string_from("show_Number"), mask1(true)));
    r.push((crate::text::string_from("show_String"), mask1(true)));
    r.push((crate::text::string_from("show_Bool"), mask1(true)));
    r.push((crate::text::string_from("show_List_"), mask1(true)));
    r.push((crate::text::string_from("show_Maybe"), mask1(true)));
    r.push((crate::text::string_from("show_ByteString"), mask1(true)));
    r.push((crate::text::string_from("show_HashMap"), mask1(true)));
    r.push((crate::text::string_from("not"), mask1(true)));
    r.push((crate::text::string_from("error"), mask1(true)));
    r.push((crate::text::string_from("max"), mask2(true, true)));
    r.push((crate::text::string_from("min"), mask2(true, true)));
    r.push((crate::text::string_from("head"), mask1(true)));
    r.push((crate::text::string_from("tail"), mask1(true)));
    r.push((crate::text::string_from("map"), mask2(true, true)));
    r.push((crate::text::string_from("filter"), mask2(true, true)));
    r.push((crate::text::string_from("take"), mask2(true, false)));
    r.push((crate::text::string_from("drop"), mask2(true, true)));
    r.push((crate::text::string_from("zipWith"), mask3(true, true, true)));
    assert(strict_rows(r@) =~= prelude_rows());
    r
}

// ---------------------------------------------------------------------
// The analysis, stated
// ---------------------------------------------------------------------

/// The module's functions, instance methods after the others.
pub open spec fn all_fns(m: TModule) -> Seq<TFunction> {
    m.functions@ + m.instance_fns@
}

pub open spec fn all_true_row(n: nat) -> Seq<bool> {
    Seq::new(n, |i: int| true)
}

/// A foreign function: one clause, with parameters, whose body is a
/// specialization call of the function's own name.
pub open spec fn is_ffi(f: TFunction) -> bool {
    f.clauses@.len() == 1 && f.clauses@[0].patterns@.len() > 0 && match f.clauses@[0].body.kind {
        TExprKind::SpecCall { original, specialized: _, args: _ } => original@ == f.name@,
        _ => false,
    }
}

pub open spec fn ffi_seed(fs: Seq<TFunction>) -> Map<Seq<char>, Seq<bool>>
    decreases fs.len(),
{
    if fs.len() == 0 {
        Map::empty()
    } else if is_ffi(fs.last()) {
        ffi_seed(fs.drop_last()).insert(fs.last().name@, all_true_row(fs.last().clauses@[0].patterns@.len()))
    } else {
        ffi_seed(fs.drop_last())
    }
}

/// Each row of the table added unless its name already has one.
pub open spec fn or_insert_rows(tbl: Seq<(Seq<char>, Seq<bool>)>, m: Map<Seq<char>, Seq<bool>>) -> Map<Seq<char>, Seq<bool>>
    decreases tbl.len(),
{
    if tbl.len() == 0 {
        m
    } else {
        let m2 = or_insert_rows(tbl.drop_last(), m);
        if m2.contains_key(tbl.last().0) { m2 } else { m2.insert(tbl.last().0, tbl.last().1) }
    }
}

/// Some function with clauses has this name.
pub open spec fn defined(fs: Seq<TFunction>, n: Seq<char>) -> bool {
    exists|i: int| 0 <= i < fs.len() && #[trigger] fs[i].clauses@.len() > 0 && fs[i].name@ == n
}

/// The prelude rows, for names the module does not define.
pub open spec fn prelude_seed(tbl: Seq<(Seq<char>, Seq<bool>)>, fs: Seq<TFunction>, m: Map<Seq<char>, Seq<bool>>) -> Map<Seq<char>, Seq<bool>>
    decreases tbl.len(),
{
    if tbl.len() == 0 {
        m
    } else {
        let m2 = prelude_seed(tbl.drop_last(), fs, m);
        if defined(fs, tbl.last().0) || m2.contains_key(tbl.last().0) { m2 } else { m2.insert(tbl.last().0, tbl.last().1) }
    }
}

pub open spec fn max_arity(cs: Seq<TClause>) -> nat
    decreases cs.len(),
{
    if cs.len() == 0 {
        0
    } else {
        let a = max_arity(cs.drop_last());
        let b = cs.last().patterns@.len();
        if a < b { b } else { a }
    }
}

/// Every function without a row yet starts strict in all its positions.
pub open spec fn fn_seed(fs: Seq<TFunction>, m: Map<Seq<char>, Seq<bool>>) -> Map<Seq<char>, Seq<bool>>
    decreases fs.len(),
{
    if fs.len() == 0 {
        m
    } else {
        let m2 = fn_seed(fs.drop_last(), m);
        let f = fs.last();
        if f.clauses@.len() == 0 || m2.contains_key(f.name@) { m2 } else { m2.insert(f.name@, all_true_row(max_arity(f.clauses@))) }
    }
}

pub open spec fn seed(fs: Seq<TFunction>) -> Map<Seq<char>, Seq<bool>> {
    fn_seed(fs, prelude_seed(prelude_rows(), fs, or_insert_rows(binop_rows(), or_insert_rows(builtin_rows(), ffi_seed(fs)))))
}

/// The functions with clauses grouped by name, in first-seen order.
pub open spec fn name_groups(fs: Seq<TFunction>) -> Seq<(Seq<char>, Seq<TFunction>)>
    decreases fs.len(),
{
    if fs.len() == 0 {
        Seq::empty()
    } else {
        let g = name_groups(fs.drop_last());
        let f = fs.last();
        if f.clauses@.len() == 0 {
            g
        } else if exists|k: int| 0 <= k < g.len() && #[trigger] g[k].0 == f.name@ {
            let k = choose|k: int| 0 <= k < g.len() && #[trigger] g[k].0 == f.name@;
            g.update(k, (g[k].0, g[k].1.push(f)))
        } else {
            g.push((f.name@, seq![f]))
        }
    }
}

/// The AND of the clauses' rows.
pub open spec fn clauses_and(cs: Seq<TClause>, ar: nat, env: Map<Seq<char>, Seq<bool>>) -> Seq<bool>
    decreases cs.len(),
{
    if cs.len() == 0 {
        all_true_row(ar)
    } else {
        and_rows(clauses_and(cs.drop_last(), ar, env), clause_row(cs.last(), ar, env))
    }
}

/// A function's row under the rows in scope: a derived comparison method
/// is strict everywhere; otherwise a position is strict only if every
/// clause forces it.
pub open spec fn fn_row(f: TFunction, env: Map<Seq<char>, Seq<bool>>) -> Seq<bool> {
    if f.clauses@.len() == 0 {
        Seq::empty()
    } else {
        let ar = f.clauses@[0].patterns@.len();
        if ar == 0 {
            Seq::empty()
        } else if f.derived_strict {
            all_true_row(ar)
        } else {
            clauses_and(f.clauses@, ar, env)
        }
    }
}

/// The row a name's functions agree on.
pub open spec fn members_row(ms: Seq<TFunction>, env: Map<Seq<char>, Seq<bool>>) -> Seq<bool>
    decreases ms.len(),
{
    if ms.len() == 0 {
        Seq::empty()
    } else if ms.len() == 1 {
        fn_row(ms[0], env)
    } else {
        and_rows(members_row(ms.drop_last(), env), fn_row(ms.last(), env))
    }
}

pub open spec fn fn_len(f: TFunction) -> nat {
    if f.clauses@.len() == 0 { 0 } else { f.clauses@[0].patterns@.len() }
}

pub open spec fn members_len(ms: Seq<TFunction>) -> nat
    decreases ms.len(),
{
    if ms.len() == 0 {
        0
    } else if ms.len() == 1 {
        fn_len(ms[0])
    } else {
        let a = members_len(ms.drop_last());
        let b = fn_len(ms.last());
        if a < b { a } else { b }
    }
}

/// A name's new row: what its functions confirm, never more than the row
/// it has (when that row has the same length).
pub open spec fn narrowed(env: Map<Seq<char>, Seq<bool>>, n: Seq<char>, new: Seq<bool>) -> Seq<bool> {
    if env.contains_key(n) && env[n].len() == new.len() { and_rows(env[n], new) } else { new }
}

/// One round over the names in order; and whether any row changed.
pub open spec fn mod_round(gs: Seq<(Seq<char>, Seq<TFunction>)>, env: Map<Seq<char>, Seq<bool>>) -> (Map<Seq<char>, Seq<bool>>, bool)
    decreases gs.len(),
{
    if gs.len() == 0 {
        (env, false)
    } else {
        let n = gs[0].0;
        let row = narrowed(env, n, members_row(gs[0].1, env));
        let (e2, ch) = mod_round(gs.drop_first(), env.insert(n, row));
        (e2, ch || !(env.contains_key(n) && env[n] == row))
    }
}

pub open spec fn mod_fix(gs: Seq<(Seq<char>, Seq<TFunction>)>, env: Map<Seq<char>, Seq<bool>>, fuel: nat) -> Map<Seq<char>, Seq<bool>>
    decreases fuel,
{
    if fuel == 0 {
        env
    } else {
        let (e2, ch) = mod_round(gs, env);
        if ch { mod_fix(gs, e2, (fuel - 1) as nat) } else { env }
    }
}

/// Room left for the rounds to narrow: a row of the final length counts
/// its strict positions, any other row one more than that length.
pub open spec fn mbits(gs: Seq<(Seq<char>, Seq<TFunction>)>, env: Map<Seq<char>, Seq<bool>>) -> nat
    decreases gs.len(),
{
    if gs.len() == 0 {
        0
    } else {
        let n = gs[0].0;
        let l = members_len(gs[0].1);
        (if env.contains_key(n) && env[n].len() == l { count_true(env[n]) } else { l + 1 }) + mbits(gs.drop_first(), env)
    }
}

/// The module's strictness rows.
pub open spec fn strict_params_of(m: TModule) -> Map<Seq<char>, Seq<bool>> {
    let fs = all_fns(m);
    let gs = name_groups(fs);
    let s0 = seed(fs);
    mod_fix(gs, s0, mbits(gs, s0) + 1)
}

/// Every clause of every function has at most its first clause's
/// parameters, and so does every equation of its kept where-bound local
/// functions.
pub open spec fn module_wf(m: TModule) -> bool {
    forall|i: int, j: int| 0 <= i < all_fns(m).len() && 0 <= j < all_fns(m)[i].clauses@.len() ==>
        (#[trigger] all_fns(m)[i].clauses@[j]).patterns@.len() <= all_fns(m)[i].clauses@[0].patterns@.len()
        && arities_ok(kept_groups(all_fns(m)[i].clauses@[j]))
}

// ---------------------------------------------------------------------
// Convergence
// ---------------------------------------------------------------------

pub open spec fn ndistinct(gs: Seq<(Seq<char>, Seq<TFunction>)>) -> bool {
    forall|i: int, j: int| 0 <= i < j < gs.len() ==> #[trigger] gs[i].0 != #[trigger] gs[j].0
}

proof fn lemma_clauses_and_len(cs: Seq<TClause>, ar: nat, env: Map<Seq<char>, Seq<bool>>)
    ensures
        clauses_and(cs, ar, env).len() == ar,
    decreases cs.len(),
{
    if cs.len() > 0 {
        lemma_clauses_and_len(cs.drop_last(), ar, env);
    }
}

proof fn lemma_members_len(ms: Seq<TFunction>, env: Map<Seq<char>, Seq<bool>>)
    ensures
        members_row(ms, env).len() == members_len(ms),
    decreases ms.len(),
{
    if ms.len() > 0 {
        if ms.len() > 1 {
            lemma_members_len(ms.drop_last(), env);
        }
        let f = if ms.len() == 1 { ms[0] } else { ms.last() };
        if f.clauses@.len() > 0 {
            lemma_clauses_and_len(f.clauses@, f.clauses@[0].patterns@.len(), env);
        }
    }
}

/// Every group has a function.
pub(crate) proof fn lemma_name_groups_nonempty(fs: Seq<TFunction>)
    ensures
        forall|k: int| 0 <= k < name_groups(fs).len() ==> (#[trigger] name_groups(fs)[k]).1.len() > 0,
    decreases fs.len(),
{
    if fs.len() > 0 {
        let g = name_groups(fs.drop_last());
        lemma_name_groups_nonempty(fs.drop_last());
        let f = fs.last();
        let r = name_groups(fs);
        if f.clauses@.len() > 0 {
            if exists|k: int| 0 <= k < g.len() && #[trigger] g[k].0 == f.name@ {
                let k = choose|k: int| 0 <= k < g.len() && #[trigger] g[k].0 == f.name@;
                assert forall|i: int| 0 <= i < r.len() implies (#[trigger] r[i]).1.len() > 0 by {
                    if i != k {
                        assert(r[i] == g[i]);
                    }
                }
            } else {
                assert forall|i: int| 0 <= i < r.len() implies (#[trigger] r[i]).1.len() > 0 by {
                    if i < g.len() {
                        assert(r[i] == g[i]);
                    }
                }
            }
        }
    }
}

proof fn lemma_name_groups(fs: Seq<TFunction>)
    ensures
        ndistinct(name_groups(fs)),
    decreases fs.len(),
{
    if fs.len() > 0 {
        let g = name_groups(fs.drop_last());
        lemma_name_groups(fs.drop_last());
        let f = fs.last();
        let r = name_groups(fs);
        if f.clauses@.len() > 0 {
            if exists|k: int| 0 <= k < g.len() && #[trigger] g[k].0 == f.name@ {
                let k = choose|k: int| 0 <= k < g.len() && #[trigger] g[k].0 == f.name@;
                assert forall|i: int, j: int| 0 <= i < j < r.len() implies #[trigger] r[i].0 != #[trigger] r[j].0 by {
                    assert(r[i].0 == g[i].0 && r[j].0 == g[j].0);
                }
            } else {
                assert forall|i: int, j: int| 0 <= i < j < r.len() implies #[trigger] r[i].0 != #[trigger] r[j].0 by {
                    if j < g.len() {
                        assert(r[i] == g[i] && r[j] == g[j]);
                    } else {
                        assert(r[i] == g[i]);
                    }
                }
            }
        }
    }
}

proof fn lemma_nrest(gs: Seq<(Seq<char>, Seq<TFunction>)>)
    requires
        gs.len() > 0,
        ndistinct(gs),
    ensures
        ndistinct(gs.drop_first()),
        forall|k: int| 0 <= k < gs.drop_first().len() ==> #[trigger] gs.drop_first()[k].0 != gs[0].0,
{
    assert forall|k: int| 0 <= k < gs.drop_first().len() implies #[trigger] gs.drop_first()[k].0 != gs[0].0 by {
        assert(gs.drop_first()[k] == gs[k + 1]);
    }
    assert forall|i: int, j: int| 0 <= i < j < gs.drop_first().len() implies #[trigger] gs.drop_first()[i].0 != #[trigger] gs.drop_first()[j].0 by {
        assert(gs.drop_first()[i] == gs[i + 1]);
        assert(gs.drop_first()[j] == gs[j + 1]);
    }
}

proof fn lemma_mod_round_frame(gs: Seq<(Seq<char>, Seq<TFunction>)>, env: Map<Seq<char>, Seq<bool>>, x: Seq<char>)
    requires
        forall|k: int| 0 <= k < gs.len() ==> #[trigger] gs[k].0 != x,
    ensures
        mod_round(gs, env).0.contains_key(x) == env.contains_key(x),
        mod_round(gs, env).0[x] == env[x],
    decreases gs.len(),
{
    if gs.len() > 0 {
        let n = gs[0].0;
        let row = narrowed(env, n, members_row(gs[0].1, env));
        assert forall|k: int| 0 <= k < gs.drop_first().len() implies #[trigger] gs.drop_first()[k].0 != x by {
            assert(gs.drop_first()[k] == gs[k + 1]);
        }
        lemma_mod_round_frame(gs.drop_first(), env.insert(n, row), x);
    }
}

proof fn lemma_mbits_frame(gs: Seq<(Seq<char>, Seq<TFunction>)>, env: Map<Seq<char>, Seq<bool>>, x: Seq<char>, v: Seq<bool>)
    requires
        forall|k: int| 0 <= k < gs.len() ==> #[trigger] gs[k].0 != x,
    ensures
        mbits(gs, env.insert(x, v)) == mbits(gs, env),
    decreases gs.len(),
{
    if gs.len() > 0 {
        assert forall|k: int| 0 <= k < gs.drop_first().len() implies #[trigger] gs.drop_first()[k].0 != x by {
            assert(gs.drop_first()[k] == gs[k + 1]);
        }
        lemma_mbits_frame(gs.drop_first(), env, x, v);
    }
}

/// A round never widens the room left, and narrows it when it changes a
/// row.
proof fn lemma_mod_round_bits(gs: Seq<(Seq<char>, Seq<TFunction>)>, env: Map<Seq<char>, Seq<bool>>)
    requires
        ndistinct(gs),
    ensures
        mbits(gs, mod_round(gs, env).0) <= mbits(gs, env),
        mod_round(gs, env).1 ==> mbits(gs, mod_round(gs, env).0) < mbits(gs, env),
    decreases gs.len(),
{
    if gs.len() > 0 {
        let n = gs[0].0;
        let new = members_row(gs[0].1, env);
        lemma_members_len(gs[0].1, env);
        let l = members_len(gs[0].1);
        let row = narrowed(env, n, new);
        let env1 = env.insert(n, row);
        let rest = gs.drop_first();
        lemma_nrest(gs);
        lemma_mod_round_bits(rest, env1);
        let (e2, ch) = mod_round(rest, env1);
        lemma_mod_round_frame(rest, env1, n);
        lemma_mbits_frame(rest, env, n, row);
        assert(row.len() == l);
        if env.contains_key(n) && env[n].len() == l {
            lemma_count_narrow(row, env[n]);
        } else {
            crate::params::lemma_count_true_bound(row);
        }
    }
}

proof fn lemma_mod_converges(gs: Seq<(Seq<char>, Seq<TFunction>)>, env: Map<Seq<char>, Seq<bool>>, fuel: nat)
    requires
        ndistinct(gs),
        fuel > mbits(gs, env),
    ensures
        !mod_round(gs, mod_fix(gs, env, fuel)).1,
    decreases fuel,
{
    lemma_mod_round_bits(gs, env);
    let (e2, ch) = mod_round(gs, env);
    if ch {
        lemma_mod_converges(gs, e2, (fuel - 1) as nat);
    }
}

proof fn lemma_mod_fuel(gs: Seq<(Seq<char>, Seq<TFunction>)>, env: Map<Seq<char>, Seq<bool>>, f1: nat, f2: nat)
    requires
        ndistinct(gs),
        f1 > mbits(gs, env),
        f2 > mbits(gs, env),
    ensures
        mod_fix(gs, env, f1) == mod_fix(gs, env, f2),
    decreases f1,
{
    lemma_mod_round_bits(gs, env);
    let (e2, ch) = mod_round(gs, env);
    if ch {
        lemma_mod_fuel(gs, e2, (f1 - 1) as nat, (f2 - 1) as nat);
    }
}

/// A round that changes nothing leaves every name's row confirmed by its
/// functions.
proof fn lemma_mod_stable(gs: Seq<(Seq<char>, Seq<TFunction>)>, env: Map<Seq<char>, Seq<bool>>)
    requires
        !mod_round(gs, env).1,
    ensures
        mod_round(gs, env).0 == env,
        forall|k: int| 0 <= k < gs.len() ==> env.contains_key(#[trigger] gs[k].0)
            && env[gs[k].0] == narrowed(env, gs[k].0, members_row(gs[k].1, env)),
    decreases gs.len(),
{
    if gs.len() > 0 {
        let n = gs[0].0;
        let row = narrowed(env, n, members_row(gs[0].1, env));
        assert(env.contains_key(n) && env[n] == row);
        assert(env.insert(n, row) =~= env);
        let rest = gs.drop_first();
        lemma_mod_stable(rest, env);
        assert forall|k: int| 0 <= k < gs.len() implies env.contains_key(#[trigger] gs[k].0)
            && env[gs[k].0] == narrowed(env, gs[k].0, members_row(gs[k].1, env)) by {
            if k > 0 {
                assert(rest[k - 1] == gs[k]);
            }
        }
    }
}

// ---------------------------------------------------------------------
// The rows are confirmed
// ---------------------------------------------------------------------

proof fn lemma_members_confirm(ms: Seq<TFunction>, env: Map<Seq<char>, Seq<bool>>, i: int, j: int)
    requires
        0 <= j < ms.len(),
        0 <= i < members_row(ms, env).len(),
        members_row(ms, env)[i],
    ensures
        fn_row(ms[j], env)[i],
    decreases ms.len(),
{
    if ms.len() > 1 && j < ms.len() - 1 {
        lemma_members_confirm(ms.drop_last(), env, i, j);
    }
}

proof fn lemma_clauses_confirm(cs: Seq<TClause>, ar: nat, env: Map<Seq<char>, Seq<bool>>, i: int, j: int)
    requires
        0 <= j < cs.len(),
        0 <= i < ar,
        clauses_and(cs, ar, env)[i],
    ensures
        clause_row(cs[j], ar, env)[i],
    decreases cs.len(),
{
    lemma_clauses_and_len(cs.drop_last(), ar, env);
    if j < cs.len() - 1 {
        lemma_clauses_confirm(cs.drop_last(), ar, env, i, j);
    }
}

proof fn lemma_members_len_le(ms: Seq<TFunction>, j: int)
    requires
        0 <= j < ms.len(),
    ensures
        members_len(ms) <= fn_len(ms[j]),
    decreases ms.len(),
{
    if ms.len() > 1 && j < ms.len() - 1 {
        lemma_members_len_le(ms.drop_last(), j);
    }
}

/// Every parameter the module's rows mark strict is confirmed under those
/// rows by each function of that name: it is a derived comparison method,
/// or every one of its clauses forces the parameter.
pub proof fn lemma_strict_params_confirmed(m: TModule, k: int, j: int, i: int)
    requires
        0 <= k < name_groups(all_fns(m)).len(),
        0 <= j < name_groups(all_fns(m))[k].1.len(),
        0 <= i < strict_params_of(m)[name_groups(all_fns(m))[k].0].len(),
        strict_params_of(m)[name_groups(all_fns(m))[k].0][i],
    ensures
        fn_row(name_groups(all_fns(m))[k].1[j], strict_params_of(m))[i],
        !name_groups(all_fns(m))[k].1[j].derived_strict ==> forall|c: int| 0 <= c < name_groups(all_fns(m))[k].1[j].clauses@.len()
            ==> #[trigger] clause_row(name_groups(all_fns(m))[k].1[j].clauses@[c], name_groups(all_fns(m))[k].1[j].clauses@[0].patterns@.len(),
                strict_params_of(m))[i],
{
    let fs = all_fns(m);
    let gs = name_groups(fs);
    let s0 = seed(fs);
    lemma_name_groups(fs);
    lemma_mod_converges(gs, s0, mbits(gs, s0) + 1);
    let sp = strict_params_of(m);
    lemma_mod_stable(gs, sp);
    let n = gs[k].0;
    let mr = members_row(gs[k].1, sp);
    assert(sp[n] == narrowed(sp, n, mr));
    assert(mr[i]);
    lemma_members_confirm(gs[k].1, sp, i, j);
    lemma_members_len(gs[k].1, sp);
    lemma_members_len_le(gs[k].1, j);
    let f = gs[k].1[j];
    if !f.derived_strict {
        assert forall|c: int| 0 <= c < f.clauses@.len() implies #[trigger] clause_row(f.clauses@[c], f.clauses@[0].patterns@.len(), sp)[i] by {
            let ar = f.clauses@[0].patterns@.len();
            lemma_clauses_and_len(f.clauses@, ar, sp);
            lemma_clauses_confirm(f.clauses@, ar, sp, i, c);
        }
    }
}

// ---------------------------------------------------------------------
// The analysis, computed
// ---------------------------------------------------------------------

pub(crate) fn fn_at(m: &TModule, i: usize) -> (r: &TFunction)
    requires
        i < all_fns(*m).len(),
    ensures
        *r == all_fns(*m)[i as int],
{
    if i < m.functions.len() {
        &m.functions[i]
    } else {
        &m.instance_fns[i - m.functions.len()]
    }
}

pub open spec fn ngroups_model(g: Seq<(String, Vec<usize>)>, fs: Seq<TFunction>) -> Seq<(Seq<char>, Seq<TFunction>)> {
    Seq::new(g.len(), |k: int| (g[k].0@, Seq::new(g[k].1@.len(), |j: int| fs[g[k].1@[j] as int])))
}

pub open spec fn nindices_ok(g: Seq<(String, Vec<usize>)>, n: nat) -> bool {
    forall|k: int, j: int| 0 <= k < g.len() && 0 <= j < g[k].1@.len() ==> #[trigger] g[k].1@[j] < n
}

pub(crate) fn name_groups_exec(m: &TModule) -> (r: Vec<(String, Vec<usize>)>)
    requires
        all_fns(*m).len() <= usize::MAX,
    ensures
        ngroups_model(r@, all_fns(*m)) == name_groups(all_fns(*m)),
        nindices_ok(r@, all_fns(*m).len()),
{
    let ghost fs = all_fns(*m);
    let n = m.functions.len() + m.instance_fns.len();
    let mut g: Vec<(String, Vec<usize>)> = Vec::new();
    let mut i: usize = 0;
    while i < n
        invariant
            fs == all_fns(*m),
            n == fs.len(),
            i <= n,
            ngroups_model(g@, fs) == name_groups(fs.take(i as int)),
            ndistinct(ngroups_model(g@, fs)),
            nindices_ok(g@, i as nat),
        decreases n - i,
    {
        let f = fn_at(m, i);
        let ghost gm = ngroups_model(g@, fs);
        let ghost t1 = fs.take(i as int + 1);
        assert(t1.drop_last() =~= fs.take(i as int));
        assert(t1.last() == fs[i as int]);
        if f.clauses.len() > 0 {
            let mut found: Option<usize> = None;
            let mut k: usize = 0;
            while k < g.len()
                invariant
                    k <= g@.len(),
                    gm == ngroups_model(g@, fs),
                    match found {
                        Some(k0) => k0 < g@.len() && gm[k0 as int].0 == f.name@,
                        None => forall|k2: int| 0 <= k2 < k ==> #[trigger] gm[k2].0 != f.name@,
                    },
                decreases g@.len() - k,
            {
                if found.is_none() && crate::text::string_eq(&g[k].0, &f.name) {
                    found = Some(k);
                }
                k = k + 1;
            }
            match found {
                Some(k0) => {
                    proof {
                        assert forall|k2: int| 0 <= k2 < gm.len() && #[trigger] gm[k2].0 == f.name@ implies k2 == k0 by {
                            if k2 != k0 {
                                if k2 < k0 {
                                    assert(gm[k2].0 != gm[k0 as int].0);
                                } else {
                                    assert(gm[k0 as int].0 != gm[k2].0);
                                }
                            }
                        }
                    }
                    let (nm, mut idx) = g.remove(k0);
                    let ghost old_idx = idx@;
                    idx.push(i);
                    g.insert(k0, (nm, idx));
                    proof {
                        let r = ngroups_model(g@, fs);
                        let want = gm.update(k0 as int, (gm[k0 as int].0, gm[k0 as int].1.push(fs[i as int])));
                        assert forall|k2: int| 0 <= k2 < r.len() implies r[k2] == want[k2] by {
                            if k2 == k0 {
                                assert(r[k2].1 =~= want[k2].1);
                            } else {
                                assert(r[k2] == gm[k2]);
                            }
                        }
                        assert(r =~= want);
                        assert forall|a: int, b: int| 0 <= a < g@.len() && 0 <= b < g@[a].1@.len() implies #[trigger] g@[a].1@[b] < i + 1 by {
                            if a == k0 && b < old_idx.len() {
                                assert(g@[a].1@[b] == old_idx[b]);
                            }
                        }
                        assert forall|a: int, b: int| 0 <= a < b < r.len() implies #[trigger] r[a].0 != #[trigger] r[b].0 by {
                            assert(r[a].0 == gm[a].0 && r[b].0 == gm[b].0);
                        }
                    }
                },
                None => {
                    let mut idx: Vec<usize> = Vec::new();
                    idx.push(i);
                    g.push((f.name.clone(), idx));
                    proof {
                        let r = ngroups_model(g@, fs);
                        let want = gm.push((fs[i as int].name@, seq![fs[i as int]]));
                        assert forall|k2: int| 0 <= k2 < r.len() implies r[k2] == want[k2] by {
                            if k2 < gm.len() {
                                assert(r[k2] == gm[k2]);
                            } else {
                                assert(r[k2].1 =~= want[k2].1);
                            }
                        }
                        assert(r =~= want);
                        assert forall|a: int, b: int| 0 <= a < b < r.len() implies #[trigger] r[a].0 != #[trigger] r[b].0 by {
                            if b < gm.len() {
                                assert(r[a].0 == gm[a].0 && r[b].0 == gm[b].0);
                            } else {
                                assert(r[a].0 == gm[a].0);
                            }
                        }
                    }
                },
            }
        }
        i = i + 1;
    }
    assert(fs.take(n as int) =~= fs);
    g
}

fn is_ffi_exec(f: &TFunction) -> (r: bool)
    ensures
        r == is_ffi(*f),
{
    if f.clauses.len() != 1 || f.clauses[0].patterns.len() == 0 {
        return false;
    }
    match &f.clauses[0].body.kind {
        TExprKind::SpecCall { original, specialized: _, args: _ } => crate::text::string_eq(original, &f.name),
        _ => false,
    }
}

fn defined_exec(m: &TModule, name: &String) -> (r: bool)
    requires
        all_fns(*m).len() <= usize::MAX,
    ensures
        r == defined(all_fns(*m), name@),
{
    let ghost fs = all_fns(*m);
    let n = m.functions.len() + m.instance_fns.len();
    let mut i: usize = 0;
    while i < n
        invariant
            fs == all_fns(*m),
            n == fs.len(),
            i <= n,
            forall|j: int| 0 <= j < i ==> !(#[trigger] fs[j].clauses@.len() > 0 && fs[j].name@ == name@),
        decreases n - i,
    {
        let f = fn_at(m, i);
        if f.clauses.len() > 0 && crate::text::string_eq(&f.name, name) {
            return true;
        }
        i = i + 1;
    }
    false
}

fn max_arity_exec(cs: &Vec<TClause>) -> (r: usize)
    ensures
        r == max_arity(cs@),
{
    let mut a: usize = 0;
    let mut i: usize = 0;
    while i < cs.len()
        invariant
            i <= cs@.len(),
            a == max_arity(cs@.take(i as int)),
        decreases cs@.len() - i,
    {
        assert(cs@.take(i as int + 1).drop_last() =~= cs@.take(i as int));
        if a < cs[i].patterns.len() {
            a = cs[i].patterns.len();
        }
        i = i + 1;
    }
    assert(cs@.take(cs@.len() as int) =~= cs@);
    a
}

/// Add each row of the table whose name has no row yet (`fs` given:
/// only names the module does not define).
fn or_insert_exec(env: &mut StrictEnv, tbl: Vec<(String, Vec<bool>)>, m: &TModule, prelude: bool)
    requires
        all_fns(*m).len() <= usize::MAX,
    ensures
        prelude ==> final(env)@ == prelude_seed(strict_rows(tbl@), all_fns(*m), old(env)@),
        !prelude ==> final(env)@ == or_insert_rows(strict_rows(tbl@), old(env)@),
{
    let ghost t0 = strict_rows(tbl@);
    let ghost e0 = env@;
    let mut i: usize = 0;
    while i < tbl.len()
        invariant
            i <= tbl@.len(),
            all_fns(*m).len() <= usize::MAX,
            t0 == strict_rows(tbl@),
            prelude ==> env@ == prelude_seed(t0.take(i as int), all_fns(*m), e0),
            !prelude ==> env@ == or_insert_rows(t0.take(i as int), e0),
        decreases tbl@.len() - i,
    {
        assert(t0.take(i as int + 1).drop_last() =~= t0.take(i as int));
        assert(t0.take(i as int + 1).last() == (tbl@[i as int].0@, tbl@[i as int].1@));
        let skip = prelude && defined_exec(m, &tbl[i].0);
        if !skip && env.get(tbl[i].0.as_str()).is_none() {
            let row = crate::params::copy_row(&tbl[i].1);
            env.insert(tbl[i].0.as_str(), row);
        }
        i = i + 1;
    }
    assert(t0.take(tbl@.len() as int) =~= t0);
}

fn seed_exec(m: &TModule) -> (r: StrictEnv)
    requires
        all_fns(*m).len() <= usize::MAX,
    ensures
        r@ == seed(all_fns(*m)),
{
    let ghost fs = all_fns(*m);
    let n = m.functions.len() + m.instance_fns.len();
    let mut env = StrictEnv::new();
    let mut i: usize = 0;
    while i < n
        invariant
            fs == all_fns(*m),
            n == fs.len(),
            i <= n,
            env@ == ffi_seed(fs.take(i as int)),
        decreases n - i,
    {
        let f = fn_at(m, i);
        assert(fs.take(i as int + 1).drop_last() =~= fs.take(i as int));
        assert(fs.take(i as int + 1).last() == fs[i as int]);
        if is_ffi_exec(f) {
            env.insert(f.name.as_str(), all_true(f.clauses[0].patterns.len()));
        }
        i = i + 1;
    }
    assert(fs.take(n as int) =~= fs);
    or_insert_exec(&mut env, builtin_rows_exec(), m, false);
    or_insert_exec(&mut env, binop_rows_exec(), m, false);
    or_insert_exec(&mut env, prelude_rows_exec(), m, true);
    let ghost e1 = env@;
    let mut i: usize = 0;
    while i < n
        invariant
            fs == all_fns(*m),
            n == fs.len(),
            i <= n,
            env@ == fn_seed(fs.take(i as int), e1),
        decreases n - i,
    {
        let f = fn_at(m, i);
        assert(fs.take(i as int + 1).drop_last() =~= fs.take(i as int));
        assert(fs.take(i as int + 1).last() == fs[i as int]);
        if f.clauses.len() > 0 && env.get(f.name.as_str()).is_none() {
            let a = max_arity_exec(&f.clauses);
            env.insert(f.name.as_str(), all_true(a));
        }
        i = i + 1;
    }
    assert(fs.take(n as int) =~= fs);
    env
}

/// A function's row: derived comparison methods are strict everywhere;
/// otherwise the AND of its clauses' rows.
fn analyze_function(f: &TFunction, env: &StrictEnv) -> (r: Vec<bool>)
    requires
        forall|j: int| 0 <= j < f.clauses@.len() ==> (#[trigger] f.clauses@[j]).patterns@.len() <= f.clauses@[0].patterns@.len()
            && arities_ok(kept_groups(f.clauses@[j])),
    ensures
        r@ == fn_row(*f, env@),
{
    if f.clauses.len() == 0 {
        return Vec::new();
    }
    let ar = f.clauses[0].patterns.len();
    if ar == 0 {
        let r: Vec<bool> = Vec::new();
        assert(r@ =~= Seq::<bool>::empty());
        return r;
    }
    if f.derived_strict {
        return all_true(ar);
    }
    let mut acc = all_true(ar);
    let mut j: usize = 0;
    while j < f.clauses.len()
        invariant
            j <= f.clauses@.len(),
            ar == f.clauses@[0].patterns@.len(),
            forall|j2: int| 0 <= j2 < f.clauses@.len() ==> (#[trigger] f.clauses@[j2]).patterns@.len() <= f.clauses@[0].patterns@.len()
                && arities_ok(kept_groups(f.clauses@[j2])),
            acc@ == clauses_and(f.clauses@.take(j as int), ar as nat, env@),
        decreases f.clauses@.len() - j,
    {
        let cr = analyze_clause(&f.clauses[j], ar, env);
        acc = and_rows_exec(&acc, &cr);
        assert(f.clauses@.take(j as int + 1).drop_last() =~= f.clauses@.take(j as int));
        assert(f.clauses@.take(j as int + 1).last() == f.clauses@[j as int]);
        j = j + 1;
    }
    assert(f.clauses@.take(f.clauses@.len() as int) =~= f.clauses@);
    acc
}

fn members_row_exec(m: &TModule, idx: &Vec<usize>, env: &StrictEnv) -> (r: Vec<bool>)
    requires
        module_wf(*m),
        forall|j: int| 0 <= j < idx@.len() ==> #[trigger] idx@[j] < all_fns(*m).len(),
    ensures
        r@ == members_row(Seq::new(idx@.len(), |j: int| all_fns(*m)[idx@[j] as int]), env@),
{
    let ghost ms = Seq::new(idx@.len(), |j: int| all_fns(*m)[idx@[j] as int]);
    if idx.len() == 0 {
        return Vec::new();
    }
    let f0 = fn_at(m, idx[0]);
    let mut acc = analyze_function(f0, env);
    assert(ms.take(1) =~= seq![ms[0]]);
    let mut j: usize = 1;
    while j < idx.len()
        invariant
            1 <= j <= idx@.len(),
            module_wf(*m),
            ms == Seq::new(idx@.len(), |j2: int| all_fns(*m)[idx@[j2] as int]),
            forall|j2: int| 0 <= j2 < idx@.len() ==> #[trigger] idx@[j2] < all_fns(*m).len(),
            acc@ == members_row(ms.take(j as int), env@),
        decreases idx@.len() - j,
    {
        let f = fn_at(m, idx[j]);
        let fr = analyze_function(f, env);
        acc = and_rows_exec(&acc, &fr);
        assert(ms.take(j as int + 1).drop_last() =~= ms.take(j as int));
        assert(ms.take(j as int + 1).last() == ms[j as int]);
        j = j + 1;
    }
    assert(ms.take(idx@.len() as int) =~= ms);
    acc
}

/// Parameter strictness of every function of the module: function name →
/// per-parameter "forced whenever the result is forced to WHNF".
pub fn strict_params(module: &TModule) -> (r: StrictEnv)
    requires
        module_wf(*module),
        all_fns(*module).len() <= usize::MAX,
    ensures
        r@ == strict_params_of(*module),
{
    let ghost fs = all_fns(*module);
    let g = name_groups_exec(module);
    let ghost gs = ngroups_model(g@, fs);
    let mut env = seed_exec(module);
    let ghost s0 = env@;
    proof {
        lemma_name_groups(fs);
    }
    loop
        invariant
            fs == all_fns(*module),
            gs == ngroups_model(g@, fs),
            gs == name_groups(fs),
            ndistinct(gs),
            module_wf(*module),
            nindices_ok(g@, fs.len()),
            s0 == seed(fs),
            mod_fix(gs, env@, mbits(gs, env@) + 1) == mod_fix(gs, s0, mbits(gs, s0) + 1),
        decreases mbits(gs, env@),
    {
        let ghost estart = env@;
        let mut changed = false;
        let mut k: usize = 0;
        assert(gs.skip(0) =~= gs);
        while k < g.len()
            invariant
                k <= g@.len(),
                fs == all_fns(*module),
                gs == ngroups_model(g@, fs),
                module_wf(*module),
                nindices_ok(g@, fs.len()),
                mod_round(gs.skip(k as int), env@).0 == mod_round(gs, estart).0,
                mod_round(gs, estart).1 == (changed || mod_round(gs.skip(k as int), env@).1),
            decreases g@.len() - k,
        {
            proof {
                assert(gs.skip(k as int)[0] == gs[k as int]);
                assert(gs.skip(k as int).drop_first() =~= gs.skip(k as int + 1));
                assert(gs[k as int].1 =~= Seq::new(g@[k as int].1@.len(), |j: int| fs[g@[k as int].1@[j] as int]));
            }
            let new = members_row_exec(module, &g[k].1, &env);
            let row = match env.get(g[k].0.as_str()) {
                Some(old) => if old.len() == new.len() { and_rows_exec(old, &new) } else { new },
                None => new,
            };
            let same = match env.get(g[k].0.as_str()) {
                Some(old) => bool_rows_eq(old, &row),
                None => false,
            };
            if !same {
                env.insert(g[k].0.as_str(), row);
                changed = true;
            } else {
                assert(env@.insert(gs[k as int].0, row@) =~= env@);
            }
            k = k + 1;
        }
        assert(gs.skip(g@.len() as int) =~= Seq::<(Seq<char>, Seq<TFunction>)>::empty());
        proof {
            lemma_mod_round_bits(gs, estart);
        }
        if !changed {
            proof {
                lemma_mod_stable(gs, estart);
            }
            return env;
        }
        proof {
            lemma_mod_fuel(gs, env@, mbits(gs, estart), mbits(gs, env@) + 1);
        }
    }
}

} // verus!
