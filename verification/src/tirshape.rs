//! Shape questions on types and typed expressions that the emitter asks:
//! the head and arguments of a type application, the arity of a function
//! type, whether an expression mentions a name, whether evaluating it at
//! load time would read a global, and which `let` bindings may be bound
//! strictly or as a bare alias.

use vstd::prelude::*;
use crate::tir::{TExpr, TExprKind, TCaseBranch, TGuard, TLocalDef};
use crate::types::Ty;
use crate::text::str_eq;

verus! {

broadcast use vstd::string::group_string_axioms;

// ---------------------------------------------------------------------
// Types
// ---------------------------------------------------------------------

/// The head constructor of a type-application spine, if the spine ends in
/// a constructor.
pub open spec fn app_head(t: Ty) -> Option<Seq<char>>
    decreases t,
{
    match t {
        Ty::App(f, _) => app_head(*f),
        Ty::Con(n) => Some(n@),
        _ => None,
    }
}

/// The arguments of a type-application spine, in source order (empty
/// unless the spine ends in a constructor).
pub open spec fn app_args(t: Ty) -> Seq<Ty>
    decreases t,
{
    match t {
        Ty::App(f, a) => if app_head(*f) is Some { app_args(*f).push(*a) } else { Seq::empty() },
        _ => Seq::empty(),
    }
}

/// Split a type application into its head constructor's name and its
/// arguments: `Map k v` gives `Map` and `[k, v]`, `Foo` gives `Foo` and
/// no arguments; a spine that does not end in a constructor gives no name
/// and no arguments.
pub fn decompose_app(ty: &Ty) -> (r: (Option<&String>, Vec<&Ty>))
    ensures
        match r.0 {
            Some(n) => app_head(*ty) == Some(n@),
            None => app_head(*ty) is None,
        },
        r.1@.map_values(|t: &Ty| *t) == app_args(*ty),
    decreases ty,
{
    match ty {
        Ty::App(f, a) => {
            let (h, mut args) = decompose_app(f);
            match h {
                Some(n) => {
                    let ghost before = args@;
                    args.push(&**a);
                    assert(args@.map_values(|t: &Ty| *t) =~= before.map_values(|t: &Ty| *t).push(**a));
                    (Some(n), args)
                },
                None => {
                    let empty: Vec<&Ty> = Vec::new();
                    assert(empty@.map_values(|t: &Ty| *t) =~= Seq::<Ty>::empty());
                    (None, empty)
                },
            }
        },
        Ty::Con(n) => {
            let empty: Vec<&Ty> = Vec::new();
            assert(empty@.map_values(|t: &Ty| *t) =~= Seq::<Ty>::empty());
            (Some(n), empty)
        },
        _ => {
            let empty: Vec<&Ty> = Vec::new();
            assert(empty@.map_values(|t: &Ty| *t) =~= Seq::<Ty>::empty());
            (None, empty)
        },
    }
}

/// The name of a nullary type constructor.
pub fn con_name(ty: &Ty) -> (r: Option<&String>)
    ensures
        match r {
            Some(n) => *ty == Ty::Con(*n),
            None => !(*ty is Con),
        },
{
    match ty {
        Ty::Con(n) => Some(n),
        _ => None,
    }
}

/// The arrows at the top level of a type: the arity of a function of that
/// type.
pub open spec fn arrows(t: Ty) -> nat
    decreases t,
{
    match t {
        Ty::Arrow(_, rest) => 1 + arrows(*rest),
        _ => 0,
    }
}

/// The number of top-level arrows of `ty`.
pub fn count_arrows(ty: &Ty) -> (r: usize)
    requires
        arrows(*ty) <= usize::MAX,
    ensures
        r == arrows(*ty),
    decreases ty,
{
    match ty {
        Ty::Arrow(_, rest) => 1 + count_arrows(rest),
        _ => 0,
    }
}

// ---------------------------------------------------------------------
// Mentions of a name
// ---------------------------------------------------------------------

/// `e` mentions the variable `name` anywhere (binders are not looked at).
pub open spec fn refs(e: TExpr, name: Seq<char>) -> bool
    decreases e,
{
    match e.kind {
        TExprKind::Var(n) => n@ == name,
        TExprKind::Con(_) | TExprKind::Lit(_) | TExprKind::OpFunc(_) | TExprKind::DictAccess { .. } => false,
        TExprKind::App(f, a) => refs(*f, name) || refs(*a, name),
        TExprKind::InfixApp { op: _, lhs, rhs } => refs(*lhs, name) || refs(*rhs, name),
        TExprKind::Negate(x) => refs(*x, name),
        TExprKind::Paren(x) => refs(*x, name),
        TExprKind::Lambda { params: _, body } => refs(*body, name),
        TExprKind::If { cond, then_branch, else_branch } => refs(*cond, name) || refs(*then_branch, name)
            || refs(*else_branch, name),
        TExprKind::Case { scrutinee, branches } => refs(*scrutinee, name) || refs_branches(branches@, name),
        TExprKind::Let { binds, body } => refs_binds(binds@, name) || refs(*body, name),
        TExprKind::SpecCall { original: _, specialized: _, args } => refs_exprs(args@, name),
        TExprKind::Tuple(elems) => refs_exprs(elems@, name),
        TExprKind::DictMethod { dict, method_name: _ } => refs(*dict, name),
        TExprKind::DictCall { func_name: _, dict_args, value_args } => refs_exprs(dict_args@, name)
            || refs_exprs(value_args@, name),
        TExprKind::RecordUpdate { record, updates } => refs(*record, name) || refs_updates(updates@, name),
        TExprKind::OutgoingCallback { callee, arity: _ } => refs(*callee, name),
        TExprKind::FfiMaybeArg { value } => refs(*value, name),
    }
}

pub open spec fn refs_exprs(es: Seq<TExpr>, name: Seq<char>) -> bool
    decreases es,
{
    es.len() > 0 && (refs_exprs(es.drop_last(), name) || refs(es.last(), name))
}

pub open spec fn refs_guards(gs: Seq<TGuard>, name: Seq<char>) -> bool
    decreases gs,
{
    gs.len() > 0 && (refs_guards(gs.drop_last(), name) || refs(gs.last().condition, name)
        || refs(gs.last().body, name))
}

pub open spec fn refs_branches(bs: Seq<TCaseBranch>, name: Seq<char>) -> bool
    decreases bs,
{
    bs.len() > 0 && (refs_branches(bs.drop_last(), name) || refs_guards(bs.last().guards@, name)
        || refs(bs.last().body, name))
}

pub open spec fn refs_binds(bs: Seq<TLocalDef>, name: Seq<char>) -> bool
    decreases bs,
{
    bs.len() > 0 && (refs_binds(bs.drop_last(), name) || refs(bs.last().body, name))
}

pub open spec fn refs_updates(us: Seq<(String, usize, TExpr)>, name: Seq<char>) -> bool
    decreases us,
{
    us.len() > 0 && (refs_updates(us.drop_last(), name) || refs(us.last().2, name))
}

/// Does `expr` mention the variable `name` anywhere?
pub fn expr_references_name(expr: &TExpr, name: &str) -> (r: bool)
    ensures
        r == refs(*expr, name@),
    decreases expr,
{
    match &expr.kind {
        TExprKind::Var(n) => str_eq(n.as_str(), name),
        TExprKind::Con(_) | TExprKind::Lit(_) | TExprKind::OpFunc(_) | TExprKind::DictAccess { .. } => false,
        TExprKind::App(f, a) => expr_references_name(f, name) || expr_references_name(a, name),
        TExprKind::InfixApp { op: _, lhs, rhs } => expr_references_name(lhs, name) || expr_references_name(rhs, name),
        TExprKind::Negate(x) => expr_references_name(x, name),
        TExprKind::Paren(x) => expr_references_name(x, name),
        TExprKind::Lambda { params: _, body } => expr_references_name(body, name),
        TExprKind::If { cond, then_branch, else_branch } => expr_references_name(cond, name)
            || expr_references_name(then_branch, name) || expr_references_name(else_branch, name),
        TExprKind::Case { scrutinee, branches } => expr_references_name(scrutinee, name)
            || branches_reference(branches, name),
        TExprKind::Let { binds, body } => binds_reference(binds, name) || expr_references_name(body, name),
        TExprKind::SpecCall { original: _, specialized: _, args } => exprs_reference(args, name),
        TExprKind::Tuple(elems) => exprs_reference(elems, name),
        TExprKind::DictMethod { dict, method_name: _ } => expr_references_name(dict, name),
        TExprKind::DictCall { func_name: _, dict_args, value_args } => exprs_reference(dict_args, name)
            || exprs_reference(value_args, name),
        TExprKind::RecordUpdate { record, updates } => expr_references_name(record, name)
            || updates_reference(updates, name),
        TExprKind::OutgoingCallback { callee, arity: _ } => expr_references_name(callee, name),
        TExprKind::FfiMaybeArg { value } => expr_references_name(value, name),
    }
}

fn exprs_reference(es: &Vec<TExpr>, name: &str) -> (r: bool)
    ensures
        r == refs_exprs(es@, name@),
    decreases es,
{
    let mut r = false;
    let mut i: usize = 0;
    assert(es@.take(0).len() == 0);
    while i < es.len()
        invariant
            i <= es@.len(),
            r == refs_exprs(es@.take(i as int), name@),
        decreases es@.len() - i,
    {
        assert(decreases_to!(es => es@[i as int]));
        assert(es@.take(i as int + 1).drop_last() =~= es@.take(i as int));
        let x = expr_references_name(&es[i], name);
        r = r || x;
        i = i + 1;
    }
    assert(es@.take(es@.len() as int) =~= es@);
    r
}

fn guards_reference(gs: &Vec<TGuard>, name: &str) -> (r: bool)
    ensures
        r == refs_guards(gs@, name@),
    decreases gs,
{
    let mut r = false;
    let mut i: usize = 0;
    assert(gs@.take(0).len() == 0);
    while i < gs.len()
        invariant
            i <= gs@.len(),
            r == refs_guards(gs@.take(i as int), name@),
        decreases gs@.len() - i,
    {
        assert(decreases_to!(gs => gs@[i as int]));
        assert(gs@.take(i as int + 1).drop_last() =~= gs@.take(i as int));
        let c = expr_references_name(&gs[i].condition, name);
        let b = expr_references_name(&gs[i].body, name);
        r = r || c || b;
        i = i + 1;
    }
    assert(gs@.take(gs@.len() as int) =~= gs@);
    r
}

fn branches_reference(bs: &Vec<TCaseBranch>, name: &str) -> (r: bool)
    ensures
        r == refs_branches(bs@, name@),
    decreases bs,
{
    let mut r = false;
    let mut i: usize = 0;
    assert(bs@.take(0).len() == 0);
    while i < bs.len()
        invariant
            i <= bs@.len(),
            r == refs_branches(bs@.take(i as int), name@),
        decreases bs@.len() - i,
    {
        assert(decreases_to!(bs => bs@[i as int]));
        assert(bs@.take(i as int + 1).drop_last() =~= bs@.take(i as int));
        let g = guards_reference(&bs[i].guards, name);
        let b = expr_references_name(&bs[i].body, name);
        r = r || g || b;
        i = i + 1;
    }
    assert(bs@.take(bs@.len() as int) =~= bs@);
    r
}

fn binds_reference(bs: &Vec<TLocalDef>, name: &str) -> (r: bool)
    ensures
        r == refs_binds(bs@, name@),
    decreases bs,
{
    let mut r = false;
    let mut i: usize = 0;
    assert(bs@.take(0).len() == 0);
    while i < bs.len()
        invariant
            i <= bs@.len(),
            r == refs_binds(bs@.take(i as int), name@),
        decreases bs@.len() - i,
    {
        assert(decreases_to!(bs => bs@[i as int]));
        assert(bs@.take(i as int + 1).drop_last() =~= bs@.take(i as int));
        let b = expr_references_name(&bs[i].body, name);
        r = r || b;
        i = i + 1;
    }
    assert(bs@.take(bs@.len() as int) =~= bs@);
    r
}

fn updates_reference(us: &Vec<(String, usize, TExpr)>, name: &str) -> (r: bool)
    ensures
        r == refs_updates(us@, name@),
    decreases us,
{
    let mut r = false;
    let mut i: usize = 0;
    assert(us@.take(0).len() == 0);
    while i < us.len()
        invariant
            i <= us@.len(),
            r == refs_updates(us@.take(i as int), name@),
        decreases us@.len() - i,
    {
        assert(decreases_to!(us => us@[i as int]));
        assert(us@.take(i as int + 1).drop_last() =~= us@.take(i as int));
        let b = expr_references_name(&us[i].2, name);
        r = r || b;
        i = i + 1;
    }
    assert(us@.take(us@.len() as int) =~= us@);
    r
}

// ---------------------------------------------------------------------
// Load-time reads
// ---------------------------------------------------------------------

/// Would evaluating `e` at once read a variable? Lambda bodies are read
/// only when called; the forms the eager load-time path never sees count
/// as reading.
pub open spec fn reads_global(e: TExpr) -> bool
    decreases e,
{
    match e.kind {
        TExprKind::Var(_) => true,
        TExprKind::Lambda { .. } => false,
        TExprKind::Con(_) | TExprKind::Lit(_) | TExprKind::OpFunc(_) => false,
        TExprKind::App(f, a) => reads_global(*f) || reads_global(*a),
        TExprKind::InfixApp { op: _, lhs, rhs } => reads_global(*lhs) || reads_global(*rhs),
        TExprKind::Negate(x) => reads_global(*x),
        TExprKind::Paren(x) => reads_global(*x),
        TExprKind::If { cond, then_branch, else_branch } => reads_global(*cond) || reads_global(*then_branch)
            || reads_global(*else_branch),
        TExprKind::Tuple(elems) => reads_global_exprs(elems@),
        _ => true,
    }
}

pub open spec fn reads_global_exprs(es: Seq<TExpr>) -> bool
    decreases es,
{
    es.len() > 0 && (reads_global_exprs(es.drop_last()) || reads_global(es.last()))
}

/// Would evaluating `expr` eagerly (a top-level value binding at load
/// time) read another top-level binding's value? Such a binding is bound
/// lazily so that the read happens after every binding is assigned.
pub fn expr_evaluates_global_ref(expr: &TExpr) -> (r: bool)
    ensures
        r == reads_global(*expr),
    decreases expr,
{
    match &expr.kind {
        TExprKind::Var(_) => true,
        TExprKind::Lambda { .. } => false,
        TExprKind::Con(_) | TExprKind::Lit(_) | TExprKind::OpFunc(_) => false,
        TExprKind::App(f, a) => expr_evaluates_global_ref(f) || expr_evaluates_global_ref(a),
        TExprKind::InfixApp { op: _, lhs, rhs } => expr_evaluates_global_ref(lhs) || expr_evaluates_global_ref(rhs),
        TExprKind::Negate(x) => expr_evaluates_global_ref(x),
        TExprKind::Paren(x) => expr_evaluates_global_ref(x),
        TExprKind::If { cond, then_branch, else_branch } => expr_evaluates_global_ref(cond)
            || expr_evaluates_global_ref(then_branch) || expr_evaluates_global_ref(else_branch),
        TExprKind::Tuple(elems) => exprs_read_global(elems),
        _ => true,
    }
}

fn exprs_read_global(es: &Vec<TExpr>) -> (r: bool)
    ensures
        r == reads_global_exprs(es@),
    decreases es,
{
    let mut r = false;
    let mut i: usize = 0;
    assert(es@.take(0).len() == 0);
    while i < es.len()
        invariant
            i <= es@.len(),
            r == reads_global_exprs(es@.take(i as int)),
        decreases es@.len() - i,
    {
        assert(decreases_to!(es => es@[i as int]));
        assert(es@.take(i as int + 1).drop_last() =~= es@.take(i as int));
        let x = expr_evaluates_global_ref(&es[i]);
        r = r || x;
        i = i + 1;
    }
    assert(es@.take(es@.len() as int) =~= es@);
    r
}

// ---------------------------------------------------------------------
// Strict and alias bindings of a `let` group
// ---------------------------------------------------------------------

/// Binding `i` of a group may be evaluated strictly at its assignment: it
/// is a function value (its body runs only when called), or its right-hand
/// side mentions neither itself nor any binding after it (whose values are
/// not yet assigned).
pub open spec fn strict_safe(bs: Seq<TLocalDef>, i: int) -> bool {
    (bs[i].body.kind is Lambda) || !(exists|j: int| i <= j < bs.len() && refs(bs[i].body, #[trigger] bs[j].name@))
}

/// May binding `i` of `binds` be evaluated strictly where it is assigned?
pub fn strict_binding_safe(binds: &Vec<TLocalDef>, i: usize) -> (r: bool)
    requires
        i < binds@.len(),
    ensures
        r == strict_safe(binds@, i as int),
{
    if let TExprKind::Lambda { .. } = &binds[i].body.kind {
        return true;
    }
    let mut j: usize = i;
    while j < binds.len()
        invariant
            i <= j <= binds@.len(),
            !(binds@[i as int].body.kind is Lambda),
            forall|q: int| i <= q < j ==> !refs(binds@[i as int].body, #[trigger] binds@[q].name@),
        decreases binds@.len() - j,
    {
        if expr_references_name(&binds[i].body, binds[j].name.as_str()) {
            assert(!(binds@[i as int].body.kind is Lambda));
            assert(refs(binds@[i as int].body, binds@[j as int].name@));
            return false;
        }
        j = j + 1;
    }
    true
}

/// `e` with its enclosing parentheses removed.
pub open spec fn unparen(e: TExpr) -> TExpr
    decreases e,
{
    match e.kind {
        TExprKind::Paren(x) => unparen(*x),
        _ => e,
    }
}

fn unparen_exec(e: &TExpr) -> (r: &TExpr)
    ensures
        *r == unparen(*e),
    decreases e,
{
    match &e.kind {
        TExprKind::Paren(x) => unparen_exec(x),
        _ => e,
    }
}

/// If binding `i` is a bare alias of a variable (parentheses aside) that
/// may be read where it is assigned, that variable: the binding then
/// shares the variable's value instead of suspending a read of it.
pub fn bare_var_alias(binds: &Vec<TLocalDef>, i: usize) -> (r: Option<&TExpr>)
    requires
        i < binds@.len(),
    ensures
        match r {
            Some(x) => *x == unparen(binds@[i as int].body) && x.kind is Var && strict_safe(binds@, i as int),
            None => !(unparen(binds@[i as int].body).kind is Var && strict_safe(binds@, i as int)),
        },
{
    let e = unparen_exec(&binds[i].body);
    if let TExprKind::Var(_) = &e.kind {
        if strict_binding_safe(binds, i) {
            return Some(e);
        }
    }
    None
}

} // verus!
