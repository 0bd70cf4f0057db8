//! The whole-module fold: constant propagation across top-level bindings,
//! beta-reduction of arithmetic calls and splicing of small wrappers, on
//! top of the literal folds, repeated until a round changes nothing.
//!
//! Each round collects, from the module as it stands, three tables:
//! - literal CAFs (`abc = 17`): a reference substitutes the literal;
//! - arithmetic functions (`def x = x + 1`): a saturated call with literal
//!   arguments is replaced by the literal its substituted body folds to,
//!   and kept when the body does not fold all the way;
//! - splice candidates: small monomorphic one-clause functions with no
//!   parameter used as an operator, pruned to those that cannot reach
//!   themselves through other candidates; a saturated call with literal
//!   arguments that did not fold is replaced by the substituted body,
//!   folded in place.
//! A name bound by an enclosing local binder is never the top-level
//! binding of that name. Splicing is cut off at a depth of `SPLICE_DEPTH`
//! and the rounds after `FOLD_ROUNDS`, bounds no program reaches.

use vstd::prelude::*;
use crate::fold::{LitV, infix_fold, negate_fold, show_fold, method_op};
use crate::tirview::{STy, SPat, SExpr, SKind, SBranch, SGuard, SDef, SClause, SFn};

verus! {

/// A literal CAF or spliced value above this many bytes is not
/// duplicated.
pub const STR_PROPAGATE_MAX: usize = 40;

/// The largest body, in nodes, that is spliced.
pub const SPLICE_MAX_NODES: usize = 32;

pub const SPLICE_DEPTH: u64 = 0xffff_ffff_ffff_ffff;

pub const FOLD_ROUNDS: u64 = 0xffff_ffff_ffff_ffff;

// ---------------------------------------------------------------------
// Reading expressions
// ---------------------------------------------------------------------

/// The literal under any parens.
pub open spec fn s_lit(e: SExpr) -> Option<LitV>
    decreases e,
{
    match e.kind {
        SKind::Lit(l) => Some(l),
        SKind::Paren(x) => s_lit(*x),
        _ => None,
    }
}

pub open spec fn s_infix(op: Seq<char>, l: SExpr, r: SExpr) -> Option<LitV> {
    match s_lit(l) {
        Some(a) => match s_lit(r) {
            Some(b) => infix_fold(op, a, b),
            None => None,
        },
        None => None,
    }
}

/// The variables a pattern binds.
pub open spec fn spat_vars(p: SPat) -> Set<Seq<char>>
    decreases p,
{
    match p {
        SPat::Var(n, _) => set![n],
        SPat::Constructor { name: _, args } => spats_vars(args),
        SPat::Paren(x) => spat_vars(*x),
        SPat::Tuple(ps) => spats_vars(ps),
        _ => Set::empty(),
    }
}

pub open spec fn spats_vars(ps: Seq<SPat>) -> Set<Seq<char>>
    decreases ps,
{
    if ps.len() == 0 {
        Set::empty()
    } else {
        spats_vars(ps.drop_last()) + spat_vars(ps.last())
    }
}

pub open spec fn param_set(ps: Seq<(Seq<char>, STy)>) -> Set<Seq<char>> {
    Set::new(|n: Seq<char>| exists|i: int| 0 <= i < ps.len() && #[trigger] ps[i].0 == n)
}

pub open spec fn def_names(ds: Seq<SDef>) -> Set<Seq<char>> {
    Set::new(|n: Seq<char>| exists|i: int| 0 <= i < ds.len() && #[trigger] ds[i].name == n)
}

/// An application spine without parens: the head and the arguments.
pub open spec fn app_head(e: SExpr) -> SExpr
    decreases e,
{
    match e.kind {
        SKind::App(f, _) => app_head(*f),
        _ => e,
    }
}

pub open spec fn app_args(e: SExpr) -> Seq<SExpr>
    decreases e,
{
    match e.kind {
        SKind::App(f, a) => app_args(*f).push(*a),
        _ => Seq::empty(),
    }
}

/// Every argument is a literal (under parens).
pub open spec fn all_lits(args: Seq<SExpr>) -> bool {
    forall|i: int| 0 <= i < args.len() ==> (#[trigger] s_lit(args[i])) is Some
}

/// Parameters bound to the arguments' literals, later ones winning.
pub open spec fn bind_env(ps: Seq<Seq<char>>, args: Seq<SExpr>) -> Map<Seq<char>, LitV>
    decreases ps.len(),
{
    if ps.len() == 0 || args.len() < ps.len() {
        Map::empty()
    } else {
        bind_env(ps.drop_last(), args.drop_last()).insert(ps.last(), s_lit(args[ps.len() - 1])->0)
    }
}

// ---------------------------------------------------------------------
// Substitution
// ---------------------------------------------------------------------

/// Literals substituted for variables; a binder that rebinds a name hides
/// it in its scope (a `let` hides each bound name in every right-hand side
/// and the body, and a local function's own parameters in its body).
pub open spec fn subst(e: SExpr, env: Map<Seq<char>, LitV>) -> SExpr
    decreases e,
{
    match e.kind {
        SKind::Var(n) => if env.contains_key(n) { SExpr { kind: SKind::Lit(env[n]), ty: e.ty } } else { e },
        SKind::Lambda { params, body } => SExpr {
            kind: SKind::Lambda { params, body: Box::new(subst(*body, env.remove_keys(param_set(params)))) },
            ty: e.ty,
        },
        SKind::Let { binds, body } => {
            let inner = env.remove_keys(def_names(binds));
            SExpr { kind: SKind::Let { binds: subst_defs(binds, inner), body: Box::new(subst(*body, inner)) }, ty: e.ty }
        },
        SKind::Case { scrutinee, branches } => SExpr {
            kind: SKind::Case { scrutinee: Box::new(subst(*scrutinee, env)), branches: subst_branches(branches, env) },
            ty: e.ty,
        },
        SKind::App(f, a) => SExpr { kind: SKind::App(Box::new(subst(*f, env)), Box::new(subst(*a, env))), ty: e.ty },
        SKind::InfixApp { op, lhs, rhs } => SExpr {
            kind: SKind::InfixApp { op, lhs: Box::new(subst(*lhs, env)), rhs: Box::new(subst(*rhs, env)) },
            ty: e.ty,
        },
        SKind::Negate(x) => SExpr { kind: SKind::Negate(Box::new(subst(*x, env))), ty: e.ty },
        SKind::Paren(x) => SExpr { kind: SKind::Paren(Box::new(subst(*x, env))), ty: e.ty },
        SKind::If { cond, then_branch, else_branch } => SExpr {
            kind: SKind::If {
                cond: Box::new(subst(*cond, env)),
                then_branch: Box::new(subst(*then_branch, env)),
                else_branch: Box::new(subst(*else_branch, env)),
            },
            ty: e.ty,
        },
        SKind::Tuple(es) => SExpr { kind: SKind::Tuple(subst_exprs(es, env)), ty: e.ty },
        SKind::SpecCall { original, specialized, args } => SExpr {
            kind: SKind::SpecCall { original, specialized, args: subst_exprs(args, env) },
            ty: e.ty,
        },
        SKind::DictCall { func_name, dict_args, value_args } => SExpr {
            kind: SKind::DictCall { func_name, dict_args: subst_exprs(dict_args, env), value_args: subst_exprs(value_args, env) },
            ty: e.ty,
        },
        SKind::DictMethod { dict, method_name } => SExpr {
            kind: SKind::DictMethod { dict: Box::new(subst(*dict, env)), method_name },
            ty: e.ty,
        },
        SKind::RecordUpdate { record, updates } => SExpr {
            kind: SKind::RecordUpdate { record: Box::new(subst(*record, env)), updates: subst_updates(updates, env) },
            ty: e.ty,
        },
        SKind::OutgoingCallback { callee, arity } => SExpr {
            kind: SKind::OutgoingCallback { callee: Box::new(subst(*callee, env)), arity },
            ty: e.ty,
        },
        SKind::FfiMaybeArg { value } => SExpr { kind: SKind::FfiMaybeArg { value: Box::new(subst(*value, env)) }, ty: e.ty },
        _ => e,
    }
}

pub open spec fn subst_exprs(es: Seq<SExpr>, env: Map<Seq<char>, LitV>) -> Seq<SExpr>
    decreases es,
{
    Seq::new(es.len(), |i: int| if 0 <= i < es.len() { subst(es[i], env) } else { es[0] })
}

pub open spec fn subst_updates(us: Seq<(Seq<char>, usize, SExpr)>, env: Map<Seq<char>, LitV>) -> Seq<(Seq<char>, usize, SExpr)>
    decreases us,
{
    Seq::new(us.len(), |i: int| if 0 <= i < us.len() { (us[i].0, us[i].1, subst(us[i].2, env)) } else { us[0] })
}

pub open spec fn subst_defs(ds: Seq<SDef>, env: Map<Seq<char>, LitV>) -> Seq<SDef>
    decreases ds,
{
    Seq::new(ds.len(), |i: int| if 0 <= i < ds.len() {
        SDef { name: ds[i].name, patterns: ds[i].patterns, body: subst(ds[i].body, env.remove_keys(spats_vars(ds[i].patterns))) }
    } else {
        ds[0]
    })
}

pub open spec fn subst_guards(gs: Seq<SGuard>, env: Map<Seq<char>, LitV>) -> Seq<SGuard>
    decreases gs,
{
    Seq::new(gs.len(), |i: int| if 0 <= i < gs.len() {
        SGuard { condition: subst(gs[i].condition, env), body: subst(gs[i].body, env) }
    } else {
        gs[0]
    })
}

pub open spec fn subst_branches(bs: Seq<SBranch>, env: Map<Seq<char>, LitV>) -> Seq<SBranch>
    decreases bs,
{
    Seq::new(bs.len(), |i: int| if 0 <= i < bs.len() {
        SBranch {
            pattern: bs[i].pattern,
            guards: subst_guards(bs[i].guards, env.remove_keys(spat_vars(bs[i].pattern))),
            body: subst(bs[i].body, env.remove_keys(spat_vars(bs[i].pattern))),
        }
    } else {
        bs[0]
    })
}

// ---------------------------------------------------------------------
// The arithmetic fold of a substituted body
// ---------------------------------------------------------------------

/// An arithmetic shape over literals folded bottom-up: negation of an
/// integer literal, an infix operation on literals, an `if` on a literal
/// condition. (A substituted arithmetic body holds no other node.)
pub open spec fn fold_arith(e: SExpr) -> SExpr
    decreases e,
{
    match e.kind {
        SKind::Paren(x) => SExpr { kind: SKind::Paren(Box::new(fold_arith(*x))), ty: e.ty },
        SKind::Negate(x) => {
            let i = fold_arith(*x);
            match s_lit(i) {
                Some(l) => match negate_fold(l) {
                    Some(v) => SExpr { kind: SKind::Lit(v), ty: e.ty },
                    None => SExpr { kind: SKind::Negate(Box::new(i)), ty: e.ty },
                },
                None => SExpr { kind: SKind::Negate(Box::new(i)), ty: e.ty },
            }
        },
        SKind::InfixApp { op, lhs, rhs } => {
            let l = fold_arith(*lhs);
            let r = fold_arith(*rhs);
            match s_infix(op, l, r) {
                Some(v) => SExpr { kind: SKind::Lit(v), ty: e.ty },
                None => SExpr { kind: SKind::InfixApp { op, lhs: Box::new(l), rhs: Box::new(r) }, ty: e.ty },
            }
        },
        SKind::If { cond, then_branch, else_branch } => {
            let c = fold_arith(*cond);
            let t = fold_arith(*then_branch);
            let f = fold_arith(*else_branch);
            match s_lit(c) {
                Some(LitV::Bool(b)) => if b { t } else { f },
                _ => SExpr {
                    kind: SKind::If { cond: Box::new(c), then_branch: Box::new(t), else_branch: Box::new(f) },
                    ty: e.ty,
                },
            }
        },
        _ => e,
    }
}

/// A binder-free arithmetic shape whose every variable is a parameter.
pub open spec fn arith_only(e: SExpr, ps: Seq<Seq<char>>) -> bool
    decreases e,
{
    match e.kind {
        SKind::Lit(_) => true,
        SKind::Var(n) => ps.contains(n),
        SKind::Paren(x) => arith_only(*x, ps),
        SKind::Negate(x) => arith_only(*x, ps),
        SKind::InfixApp { op: _, lhs, rhs } => arith_only(*lhs, ps) && arith_only(*rhs, ps),
        SKind::If { cond, then_branch, else_branch } => arith_only(*cond, ps) && arith_only(*then_branch, ps)
            && arith_only(*else_branch, ps),
        _ => false,
    }
}

// ---------------------------------------------------------------------
// What a body holds
// ---------------------------------------------------------------------

/// The character classes of an identifier-shaped operator's first
/// character (`char::is_alphabetic`).
pub uninterp spec fn alphabetic(c: char) -> bool;

/// `char::is_alphabetic` from std: whether `c` has the Unicode
/// `Alphabetic` property. The contract only names the result; which
/// characters have the property is left to std's tables.
#[verifier::external_body]
pub(crate) fn char_is_alphabetic(c: char) -> (r: bool)
    ensures
        r == alphabetic(c),
{
    c.is_alphabetic()
}

/// A backtick operator: its first character is alphabetic or `_`.
pub open spec fn ident_op(op: Seq<char>) -> bool {
    op.len() > 0 && (alphabetic(op[0]) || op[0] == '_')
}

/// No type variable, quantifier or skolem (the `LuaIO` scope is exempt).
pub open spec fn sty_mono(t: STy) -> bool
    decreases t,
{
    match t {
        STy::Var(_) => false,
        STy::Forall(..) => false,
        STy::Skolem(..) => false,
        STy::Con(_) => true,
        STy::Unit => true,
        STy::Promoted(_) => true,
        STy::Arrow(a, b) => sty_mono(*a) && sty_mono(*b),
        STy::App(a, b) => sty_mono(*a) && sty_mono(*b),
        STy::List(a) => sty_mono(*a),
        STy::IO(a) => sty_mono(*a),
        STy::LuaIO(_, a) => sty_mono(*a),
        STy::Tuple(es) => stys_mono(es),
    }
}

pub open spec fn stys_mono(es: Seq<STy>) -> bool
    decreases es,
{
    es.len() == 0 || (stys_mono(es.drop_last()) && sty_mono(es.last()))
}

/// What a body holds: every node's type is monomorphic, its node count
/// (capped just past the splice limit), its `Var` names in order, and its
/// backtick operators.
pub struct Stats {
    pub mono: bool,
    pub nodes: nat,
    pub vars: Seq<Seq<char>>,
    pub ops: Set<Seq<char>>,
}

pub open spec fn cap_add(a: nat, b: nat) -> nat {
    if a + b > SPLICE_MAX_NODES + 1 { (SPLICE_MAX_NODES + 1) as nat } else { a + b }
}

pub open spec fn st_join(a: Stats, b: Stats) -> Stats {
    Stats { mono: a.mono && b.mono, nodes: cap_add(a.nodes, b.nodes), vars: a.vars + b.vars, ops: a.ops + b.ops }
}

pub open spec fn st_none() -> Stats {
    Stats { mono: true, nodes: 0, vars: Seq::empty(), ops: Set::empty() }
}

/// The node itself: its type, one node, its name if a `Var`, its operator
/// if a backtick operator.
pub open spec fn st_own(e: SExpr) -> Stats {
    Stats {
        mono: sty_mono(e.ty),
        nodes: 1,
        vars: match e.kind {
            SKind::Var(n) => seq![n],
            _ => Seq::empty(),
        },
        ops: match e.kind {
            SKind::InfixApp { op, lhs: _, rhs: _ } => if ident_op(op) { set![op] } else { Set::empty() },
            _ => Set::empty(),
        },
    }
}

pub open spec fn stats(e: SExpr) -> Stats
    decreases e,
{
    st_join(st_own(e), match e.kind {
        SKind::App(f, a) => st_join(stats(*f), stats(*a)),
        SKind::InfixApp { op: _, lhs, rhs } => st_join(stats(*lhs), stats(*rhs)),
        SKind::Lambda { params: _, body } => stats(*body),
        SKind::Negate(x) => stats(*x),
        SKind::Paren(x) => stats(*x),
        SKind::If { cond, then_branch, else_branch } => st_join(st_join(stats(*cond), stats(*then_branch)), stats(*else_branch)),
        SKind::Case { scrutinee, branches } => st_join(stats(*scrutinee), stats_branches(branches)),
        SKind::Let { binds, body } => st_join(stats_defs(binds), stats(*body)),
        SKind::Tuple(es) => stats_exprs(es),
        SKind::SpecCall { original: _, specialized: _, args } => stats_exprs(args),
        SKind::DictCall { func_name: _, dict_args, value_args } => st_join(stats_exprs(dict_args), stats_exprs(value_args)),
        SKind::DictMethod { dict, method_name: _ } => stats(*dict),
        SKind::RecordUpdate { record, updates } => st_join(stats(*record), stats_updates(updates)),
        SKind::OutgoingCallback { callee, arity: _ } => stats(*callee),
        SKind::FfiMaybeArg { value } => stats(*value),
        _ => st_none(),
    })
}

pub open spec fn stats_exprs(es: Seq<SExpr>) -> Stats
    decreases es,
{
    if es.len() == 0 { st_none() } else { st_join(stats_exprs(es.drop_last()), stats(es.last())) }
}

pub open spec fn stats_updates(us: Seq<(Seq<char>, usize, SExpr)>) -> Stats
    decreases us,
{
    if us.len() == 0 { st_none() } else { st_join(stats_updates(us.drop_last()), stats(us.last().2)) }
}

pub open spec fn stats_defs(ds: Seq<SDef>) -> Stats
    decreases ds,
{
    if ds.len() == 0 { st_none() } else { st_join(stats_defs(ds.drop_last()), stats(ds.last().body)) }
}

pub open spec fn stats_guards(gs: Seq<SGuard>) -> Stats
    decreases gs,
{
    if gs.len() == 0 {
        st_none()
    } else {
        st_join(st_join(stats_guards(gs.drop_last()), stats(gs.last().condition)), stats(gs.last().body))
    }
}

pub open spec fn stats_branches(bs: Seq<SBranch>) -> Stats
    decreases bs,
{
    if bs.len() == 0 {
        st_none()
    } else {
        st_join(st_join(stats_branches(bs.drop_last()), stats_guards(bs.last().guards)), stats(bs.last().body))
    }
}

pub open spec fn count_of(vs: Seq<Seq<char>>, n: Seq<char>) -> nat
    decreases vs.len(),
{
    if vs.len() == 0 {
        0
    } else {
        count_of(vs.drop_last(), n) + if vs.last() == n { 1nat } else { 0nat }
    }
}

// ---------------------------------------------------------------------
// The tables of a round
// ---------------------------------------------------------------------

/// The one clause of a function that is a plain equation: no dictionary
/// parameters, one clause, no guards, no where-bindings.
pub open spec fn plain_clause(f: SFn) -> bool {
    f.dict_params.len() == 0 && f.clauses.len() == 1 && f.clauses[0].guards.len() == 0
        && f.clauses[0].where_binds.len() == 0
}

/// A literal CAF's value: a plain parameterless equation whose body is a
/// literal, not a big integer and not a long string.
pub open spec fn caf_of(f: SFn) -> Option<LitV> {
    if plain_clause(f) && f.clauses[0].patterns.len() == 0 {
        match s_lit(f.clauses[0].body) {
            Some(l) => match l {
                LitV::BigInteger(_) => None,
                LitV::Str(s) => if s.len() > STR_PROPAGATE_MAX { None } else { Some(l) },
                _ => Some(l),
            },
            None => None,
        }
    } else {
        None
    }
}

pub open spec fn cafs_of(fs: Seq<SFn>) -> Map<Seq<char>, LitV>
    decreases fs.len(),
{
    if fs.len() == 0 {
        Map::empty()
    } else {
        let m = cafs_of(fs.drop_last());
        match caf_of(fs.last()) {
            Some(l) => m.insert(fs.last().name, l),
            None => m,
        }
    }
}

pub open spec fn all_var_pats(ps: Seq<SPat>) -> bool {
    forall|i: int| 0 <= i < ps.len() ==> (#[trigger] ps[i]) is Var
}

pub open spec fn pat_names(ps: Seq<SPat>) -> Seq<Seq<char>> {
    Seq::new(ps.len(), |i: int| match ps[i] {
        SPat::Var(n, _) => n,
        _ => Seq::empty(),
    })
}

/// A plain equation with variable parameters only (at least one).
pub open spec fn var_equation(f: SFn) -> bool {
    plain_clause(f) && f.clauses[0].patterns.len() > 0 && all_var_pats(f.clauses[0].patterns)
}

pub open spec fn arith_fns_of(fs: Seq<SFn>) -> Map<Seq<char>, (Seq<Seq<char>>, SExpr)>
    decreases fs.len(),
{
    if fs.len() == 0 {
        Map::empty()
    } else {
        let m = arith_fns_of(fs.drop_last());
        let f = fs.last();
        if var_equation(f) && arith_only(f.clauses[0].body, pat_names(f.clauses[0].patterns)) {
            m.insert(f.name, (pat_names(f.clauses[0].patterns), f.clauses[0].body))
        } else {
            m
        }
    }
}

/// A splice candidate: parameters, each one's occurrence count, body, and
/// the body's free names (its `Var` names and backtick operators other than
/// the parameters).
pub struct Splice {
    pub params: Seq<Seq<char>>,
    pub occ: Seq<nat>,
    pub body: SExpr,
    pub free: Set<Seq<char>>,
}

pub open spec fn splice_of(f: SFn) -> Option<Splice> {
    if var_equation(f) {
        let ps = pat_names(f.clauses[0].patterns);
        let body = f.clauses[0].body;
        let st = stats(body);
        if sty_mono(f.ty) && st.mono && st.nodes <= SPLICE_MAX_NODES && !(exists|i: int| 0 <= i < ps.len()
            && st.ops.contains(#[trigger] ps[i])) {
            Some(Splice {
                params: ps,
                occ: Seq::new(ps.len(), |i: int| count_of(st.vars, ps[i])),
                body,
                free: (st.vars.to_set() + st.ops).difference(ps.to_set()),
            })
        } else {
            None
        }
    } else {
        None
    }
}

/// The candidates in order (a later one of a name wins).
pub open spec fn cand_list(fs: Seq<SFn>) -> Seq<(Seq<char>, Splice)>
    decreases fs.len(),
{
    if fs.len() == 0 {
        Seq::empty()
    } else {
        let l = cand_list(fs.drop_last());
        match splice_of(fs.last()) {
            Some(sp) => l.push((fs.last().name, sp)),
            None => l,
        }
    }
}

pub open spec fn cand_map(cl: Seq<(Seq<char>, Splice)>) -> Map<Seq<char>, Splice>
    decreases cl.len(),
{
    if cl.len() == 0 { Map::empty() } else { cand_map(cl.drop_last()).insert(cl.last().0, cl.last().1) }
}

/// Every candidate `sp` refers to is safe.
pub open spec fn refs_safe(sp: Splice, cm: Map<Seq<char>, Splice>, safe: Set<Seq<char>>) -> bool {
    forall|x: Seq<char>| sp.free.contains(x) ==> !cm.contains_key(x) || safe.contains(x)
}

/// One pass over the candidates, growing the safe set.
pub open spec fn prune_pass(cl: Seq<(Seq<char>, Splice)>, cm: Map<Seq<char>, Splice>, safe: Set<Seq<char>>) -> (Set<Seq<char>>, bool)
    decreases cl.len(),
{
    if cl.len() == 0 {
        (safe, false)
    } else {
        let (s1, g1) = prune_pass(cl.drop_last(), cm, safe);
        let n = cl.last().0;
        if !s1.contains(n) && refs_safe(cm[n], cm, s1) { (s1.insert(n), true) } else { (s1, g1) }
    }
}

pub open spec fn prune_fix(cl: Seq<(Seq<char>, Splice)>, cm: Map<Seq<char>, Splice>, safe: Set<Seq<char>>, k: nat) -> Set<Seq<char>>
    decreases k,
{
    if k == 0 {
        safe
    } else {
        let (s2, g) = prune_pass(cl, cm, safe);
        if g { prune_fix(cl, cm, s2, (k - 1) as nat) } else { s2 }
    }
}

/// The splice candidates that cannot reach themselves through others.
pub open spec fn splices_of(fs: Seq<SFn>) -> Map<Seq<char>, Splice> {
    let cl = cand_list(fs);
    let cm = cand_map(cl);
    cm.restrict(prune_fix(cl, cm, Set::empty(), FOLD_ROUNDS as nat))
}

/// What one round reads.
pub struct FoldEnv {
    pub cafs: Map<Seq<char>, LitV>,
    pub fns: Map<Seq<char>, (Seq<Seq<char>>, SExpr)>,
    pub splices: Map<Seq<char>, Splice>,
}

pub open spec fn env_of(fs: Seq<SFn>) -> FoldEnv {
    FoldEnv { cafs: cafs_of(fs), fns: arith_fns_of(fs), splices: splices_of(fs) }
}

// ---------------------------------------------------------------------
// One round's fold
// ---------------------------------------------------------------------

/// The literal arguments of a splice are not long strings used more than
/// once.
pub open spec fn splice_args_ok(sp: Splice, args: Seq<SExpr>) -> bool {
    args.len() == sp.params.len() && all_lits(args) && forall|i: int| 0 <= i < args.len() ==> !(match #[trigger] s_lit(args[i]) {
        Some(LitV::Str(b)) => b.len() > STR_PROPAGATE_MAX && i < sp.occ.len() && sp.occ[i] > 1,
        _ => false,
    })
}

/// A saturated call of an arithmetic function on literals, folded to the
/// literal its substituted body folds to.
pub open spec fn try_call(env: FoldEnv, sh: Set<Seq<char>>, app: SExpr) -> Option<LitV> {
    let args = app_args(app);
    match app_head(app).kind {
        SKind::Var(name) => if !sh.contains(name) && env.fns.contains_key(name) && args.len() == env.fns[name].0.len()
            && all_lits(args) {
            match fold_arith(subst(env.fns[name].1, bind_env(env.fns[name].0, args))).kind {
                SKind::Lit(l) => Some(l),
                _ => None,
            }
        } else {
            None
        },
        _ => None,
    }
}

/// A saturated call of a splice candidate on literals, replaced by its
/// substituted body (with the call's type), unless a local binder in scope
/// shadows a free name of the body.
pub open spec fn try_splice(env: FoldEnv, sh: Set<Seq<char>>, app: SExpr) -> Option<SExpr> {
    let args = app_args(app);
    match app_head(app).kind {
        SKind::Var(name) => if !sh.contains(name) && env.splices.contains_key(name)
            && splice_args_ok(env.splices[name], args)
            && !(exists|x: Seq<char>| env.splices[name].free.contains(x) && sh.contains(x)) {
            let sp = env.splices[name];
            Some(SExpr { kind: subst(sp.body, bind_env(sp.params, args)).kind, ty: app.ty })
        } else {
            None
        },
        _ => None,
    }
}

pub open spec fn lit_node(v: LitV, ty: STy) -> SExpr {
    SExpr { kind: SKind::Lit(v), ty }
}

/// The rewrite of a node whose children are folded: a literal CAF
/// reference, an infix operation or a resolved comparison method on
/// literals, negation of a literal, `if` on a literal, `show` of a literal,
/// a saturated arithmetic call on literals.
pub open spec fn rewrite(env: FoldEnv, sh: Set<Seq<char>>, n: SExpr) -> Option<SExpr> {
    match n.kind {
        SKind::Var(name) => if !sh.contains(name) && env.cafs.contains_key(name) {
            Some(lit_node(env.cafs[name], n.ty))
        } else {
            None
        },
        SKind::InfixApp { op, lhs, rhs } => match s_infix(op, *lhs, *rhs) {
            Some(v) => Some(lit_node(v, n.ty)),
            None => None,
        },
        SKind::Negate(x) => match s_lit(*x) {
            Some(l) => match negate_fold(l) {
                Some(v) => Some(lit_node(v, n.ty)),
                None => None,
            },
            None => None,
        },
        SKind::If { cond, then_branch, else_branch } => match s_lit(*cond) {
            Some(LitV::Bool(b)) => Some(if b { *then_branch } else { *else_branch }),
            _ => None,
        },
        SKind::App(f, a) => {
            let shown = match f.kind {
                SKind::Var(name) => if !sh.contains(name) {
                    match s_lit(*a) {
                        Some(l) => show_fold(name, l),
                        None => None,
                    }
                } else {
                    None
                },
                _ => None,
            };
            let method = match f.kind {
                SKind::App(ff, lhs) => match ff.kind {
                    SKind::Var(name) => match method_op(name) {
                        Some(op) => s_infix(op, *lhs, *a),
                        None => None,
                    },
                    _ => None,
                },
                _ => None,
            };
            if shown is Some {
                Some(lit_node(shown->0, n.ty))
            } else if method is Some {
                Some(lit_node(method->0, n.ty))
            } else {
                match try_call(env, sh, n) {
                    Some(v) => Some(lit_node(v, n.ty)),
                    None => None,
                }
            }
        },
        _ => None,
    }
}

/// The fold of `e` with the names in `sh` bound locally, splices allowed
/// `k` deep; whether anything was rewritten.
pub open spec fn sfold(env: FoldEnv, sh: Set<Seq<char>>, k: nat, e: SExpr) -> (SExpr, bool)
    decreases k, e, 1nat,
{
    match e.kind {
        SKind::Lambda { params, body } => {
            let (b, c) = sfold(env, sh + param_set(params), k, *body);
            (SExpr { kind: SKind::Lambda { params, body: Box::new(b) }, ty: e.ty }, c)
        },
        SKind::Let { binds, body } => {
            let sh2 = sh + def_names(binds);
            let (bs, c1) = sfold_defs(env, sh2, k, binds);
            let (b, c2) = sfold(env, sh2, k, *body);
            (SExpr { kind: SKind::Let { binds: bs, body: Box::new(b) }, ty: e.ty }, c1 || c2)
        },
        SKind::Case { scrutinee, branches } => {
            let (sc, c1) = sfold(env, sh, k, *scrutinee);
            let (bs, c2) = sfold_branches(env, sh, k, branches);
            (SExpr { kind: SKind::Case { scrutinee: Box::new(sc), branches: bs }, ty: e.ty }, c1 || c2)
        },
        _ => {
            let (kk, c1) = sfold_kids(env, sh, k, e);
            let n = SExpr { kind: kk, ty: e.ty };
            match rewrite(env, sh, n) {
                Some(r) => (r, true),
                None => if k > 0 && n.kind is App {
                    match try_splice(env, sh, n) {
                        Some(sp) => (sfold(env, sh, (k - 1) as nat, sp).0, true),
                        None => (n, c1),
                    }
                } else {
                    (n, c1)
                },
            }
        },
    }
}

/// The children of a node without binders, folded.
pub open spec fn sfold_kids(env: FoldEnv, sh: Set<Seq<char>>, k: nat, e: SExpr) -> (SKind, bool)
    decreases k, e, 0nat,
{
    match e.kind {
        SKind::App(f, a) => {
            let (x, c1) = sfold(env, sh, k, *f);
            let (y, c2) = sfold(env, sh, k, *a);
            (SKind::App(Box::new(x), Box::new(y)), c1 || c2)
        },
        SKind::InfixApp { op, lhs, rhs } => {
            let (x, c1) = sfold(env, sh, k, *lhs);
            let (y, c2) = sfold(env, sh, k, *rhs);
            (SKind::InfixApp { op, lhs: Box::new(x), rhs: Box::new(y) }, c1 || c2)
        },
        SKind::Negate(x) => {
            let (y, c) = sfold(env, sh, k, *x);
            (SKind::Negate(Box::new(y)), c)
        },
        SKind::Paren(x) => {
            let (y, c) = sfold(env, sh, k, *x);
            (SKind::Paren(Box::new(y)), c)
        },
        SKind::If { cond, then_branch, else_branch } => {
            let (x, c1) = sfold(env, sh, k, *cond);
            let (y, c2) = sfold(env, sh, k, *then_branch);
            let (z, c3) = sfold(env, sh, k, *else_branch);
            (SKind::If { cond: Box::new(x), then_branch: Box::new(y), else_branch: Box::new(z) }, c1 || c2 || c3)
        },
        SKind::Tuple(es) => {
            let (xs, c) = sfold_exprs(env, sh, k, es);
            (SKind::Tuple(xs), c)
        },
        SKind::SpecCall { original, specialized, args } => {
            let (xs, c) = sfold_exprs(env, sh, k, args);
            (SKind::SpecCall { original, specialized, args: xs }, c)
        },
        SKind::DictCall { func_name, dict_args, value_args } => {
            let (xs, c1) = sfold_exprs(env, sh, k, dict_args);
            let (ys, c2) = sfold_exprs(env, sh, k, value_args);
            (SKind::DictCall { func_name, dict_args: xs, value_args: ys }, c1 || c2)
        },
        SKind::DictMethod { dict, method_name } => {
            let (y, c) = sfold(env, sh, k, *dict);
            (SKind::DictMethod { dict: Box::new(y), method_name }, c)
        },
        SKind::RecordUpdate { record, updates } => {
            let (x, c1) = sfold(env, sh, k, *record);
            let (us, c2) = sfold_updates(env, sh, k, updates);
            (SKind::RecordUpdate { record: Box::new(x), updates: us }, c1 || c2)
        },
        SKind::OutgoingCallback { callee, arity } => {
            let (y, c) = sfold(env, sh, k, *callee);
            (SKind::OutgoingCallback { callee: Box::new(y), arity }, c)
        },
        SKind::FfiMaybeArg { value } => {
            let (y, c) = sfold(env, sh, k, *value);
            (SKind::FfiMaybeArg { value: Box::new(y) }, c)
        },
        _ => (e.kind, false),
    }
}

pub open spec fn sfold_exprs(env: FoldEnv, sh: Set<Seq<char>>, k: nat, es: Seq<SExpr>) -> (Seq<SExpr>, bool)
    decreases k, es, 0nat,
{
    if es.len() == 0 {
        (Seq::empty(), false)
    } else {
        let (xs, c1) = sfold_exprs(env, sh, k, es.drop_last());
        let (x, c2) = sfold(env, sh, k, es.last());
        (xs.push(x), c1 || c2)
    }
}

pub open spec fn sfold_updates(env: FoldEnv, sh: Set<Seq<char>>, k: nat, us: Seq<(Seq<char>, usize, SExpr)>) -> (Seq<(Seq<char>, usize, SExpr)>, bool)
    decreases k, us, 0nat,
{
    if us.len() == 0 {
        (Seq::empty(), false)
    } else {
        let (xs, c1) = sfold_updates(env, sh, k, us.drop_last());
        let (x, c2) = sfold(env, sh, k, us.last().2);
        (xs.push((us.last().0, us.last().1, x)), c1 || c2)
    }
}

/// Local definitions: each body with its own parameters bound too.
pub open spec fn sfold_defs(env: FoldEnv, sh: Set<Seq<char>>, k: nat, ds: Seq<SDef>) -> (Seq<SDef>, bool)
    decreases k, ds, 0nat,
{
    if ds.len() == 0 {
        (Seq::empty(), false)
    } else {
        let (xs, c1) = sfold_defs(env, sh, k, ds.drop_last());
        let d = ds.last();
        let (b, c2) = sfold(env, sh + spats_vars(d.patterns), k, d.body);
        (xs.push(SDef { name: d.name, patterns: d.patterns, body: b }), c1 || c2)
    }
}

pub open spec fn sfold_guards(env: FoldEnv, sh: Set<Seq<char>>, k: nat, gs: Seq<SGuard>) -> (Seq<SGuard>, bool)
    decreases k, gs, 0nat,
{
    if gs.len() == 0 {
        (Seq::empty(), false)
    } else {
        let (xs, c1) = sfold_guards(env, sh, k, gs.drop_last());
        let (c, c2) = sfold(env, sh, k, gs.last().condition);
        let (b, c3) = sfold(env, sh, k, gs.last().body);
        (xs.push(SGuard { condition: c, body: b }), c1 || c2 || c3)
    }
}

/// Alternatives: each with its pattern's variables bound.
pub open spec fn sfold_branches(env: FoldEnv, sh: Set<Seq<char>>, k: nat, bs: Seq<SBranch>) -> (Seq<SBranch>, bool)
    decreases k, bs, 0nat,
{
    if bs.len() == 0 {
        (Seq::empty(), false)
    } else {
        let (xs, c1) = sfold_branches(env, sh, k, bs.drop_last());
        let b = bs.last();
        let sh2 = sh + spat_vars(b.pattern);
        let (gs, c2) = sfold_guards(env, sh2, k, b.guards);
        let (body, c3) = sfold(env, sh2, k, b.body);
        (xs.push(SBranch { pattern: b.pattern, guards: gs, body }), c1 || c2 || c3)
    }
}

/// A clause: its parameters and where-bound names bound.
pub open spec fn sfold_clause(env: FoldEnv, c: SClause) -> (SClause, bool) {
    let sh = spats_vars(c.patterns) + def_names(c.where_binds);
    let k = SPLICE_DEPTH as nat;
    let (gs, c1) = sfold_guards(env, sh, k, c.guards);
    let (b, c2) = sfold(env, sh, k, c.body);
    let (ws, c3) = sfold_defs(env, sh, k, c.where_binds);
    (SClause { patterns: c.patterns, guards: gs, body: b, where_binds: ws }, c1 || c2 || c3)
}

pub open spec fn sfold_clauses(env: FoldEnv, cs: Seq<SClause>) -> (Seq<SClause>, bool)
    decreases cs.len(),
{
    if cs.len() == 0 {
        (Seq::empty(), false)
    } else {
        let (xs, c1) = sfold_clauses(env, cs.drop_last());
        let (x, c2) = sfold_clause(env, cs.last());
        (xs.push(x), c1 || c2)
    }
}

pub open spec fn sfold_fns(env: FoldEnv, fs: Seq<SFn>) -> (Seq<SFn>, bool)
    decreases fs.len(),
{
    if fs.len() == 0 {
        (Seq::empty(), false)
    } else {
        let (xs, c1) = sfold_fns(env, fs.drop_last());
        let f = fs.last();
        let (cs, c2) = sfold_clauses(env, f.clauses);
        (xs.push(SFn { name: f.name, ty: f.ty, dict_params: f.dict_params, clauses: cs, derived_strict: f.derived_strict }), c1 || c2)
    }
}

/// One round over the functions and the instance methods, with the tables
/// read from the functions as they stood.
pub open spec fn fold_round(fs: Seq<SFn>, ins: Seq<SFn>) -> (Seq<SFn>, Seq<SFn>, bool) {
    let env = env_of(fs);
    let (f1, c1) = sfold_fns(env, fs);
    let (f2, c2) = sfold_fns(env, ins);
    (f1, f2, c1 || c2)
}

/// Rounds until one rewrites nothing (at most `n`).
pub open spec fn fold_fix(fs: Seq<SFn>, ins: Seq<SFn>, n: nat) -> (Seq<SFn>, Seq<SFn>)
    decreases n,
{
    if n == 0 {
        (fs, ins)
    } else {
        let (f1, f2, c) = fold_round(fs, ins);
        if c { fold_fix(f1, f2, (n - 1) as nat) } else { (f1, f2) }
    }
}

// ---------------------------------------------------------------------
// A round that rewrites nothing
// ---------------------------------------------------------------------

/// A fold that rewrote nothing hands its input back.
pub proof fn lemma_quiet_fold(env: FoldEnv, sh: Set<Seq<char>>, k: nat, e: SExpr)
    ensures
        !sfold(env, sh, k, e).1 ==> sfold(env, sh, k, e).0 == e,
    decreases k, e, 1nat,
{
    match e.kind {
        SKind::Lambda { params, body } => lemma_quiet_fold(env, sh + param_set(params), k, *body),
        SKind::Let { binds, body } => {
            lemma_quiet_defs(env, sh + def_names(binds), k, binds);
            lemma_quiet_fold(env, sh + def_names(binds), k, *body);
        },
        SKind::Case { scrutinee, branches } => {
            lemma_quiet_fold(env, sh, k, *scrutinee);
            lemma_quiet_branches(env, sh, k, branches);
        },
        _ => lemma_quiet_kids(env, sh, k, e),
    }
}

pub proof fn lemma_quiet_kids(env: FoldEnv, sh: Set<Seq<char>>, k: nat, e: SExpr)
    ensures
        !sfold_kids(env, sh, k, e).1 ==> sfold_kids(env, sh, k, e).0 == e.kind,
    decreases k, e, 0nat,
{
    match e.kind {
        SKind::App(f, a) => {
            lemma_quiet_fold(env, sh, k, *f);
            lemma_quiet_fold(env, sh, k, *a);
        },
        SKind::InfixApp { op: _, lhs, rhs } => {
            lemma_quiet_fold(env, sh, k, *lhs);
            lemma_quiet_fold(env, sh, k, *rhs);
        },
        SKind::Negate(x) => lemma_quiet_fold(env, sh, k, *x),
        SKind::Paren(x) => lemma_quiet_fold(env, sh, k, *x),
        SKind::If { cond, then_branch, else_branch } => {
            lemma_quiet_fold(env, sh, k, *cond);
            lemma_quiet_fold(env, sh, k, *then_branch);
            lemma_quiet_fold(env, sh, k, *else_branch);
        },
        SKind::Tuple(es) => lemma_quiet_exprs(env, sh, k, es),
        SKind::SpecCall { original: _, specialized: _, args } => lemma_quiet_exprs(env, sh, k, args),
        SKind::DictCall { func_name: _, dict_args, value_args } => {
            lemma_quiet_exprs(env, sh, k, dict_args);
            lemma_quiet_exprs(env, sh, k, value_args);
        },
        SKind::DictMethod { dict, method_name: _ } => lemma_quiet_fold(env, sh, k, *dict),
        SKind::RecordUpdate { record, updates } => {
            lemma_quiet_fold(env, sh, k, *record);
            lemma_quiet_updates(env, sh, k, updates);
        },
        SKind::OutgoingCallback { callee, arity: _ } => lemma_quiet_fold(env, sh, k, *callee),
        SKind::FfiMaybeArg { value } => lemma_quiet_fold(env, sh, k, *value),
        _ => {},
    }
}

pub proof fn lemma_quiet_exprs(env: FoldEnv, sh: Set<Seq<char>>, k: nat, es: Seq<SExpr>)
    ensures
        !sfold_exprs(env, sh, k, es).1 ==> sfold_exprs(env, sh, k, es).0 == es,
    decreases k, es, 0nat,
{
    if es.len() > 0 {
        lemma_quiet_exprs(env, sh, k, es.drop_last());
        lemma_quiet_fold(env, sh, k, es.last());
        if !sfold_exprs(env, sh, k, es).1 {
            assert(sfold_exprs(env, sh, k, es).0 =~= es);
        }
    } else {
        assert(sfold_exprs(env, sh, k, es).0 =~= es);
    }
}

pub proof fn lemma_quiet_updates(env: FoldEnv, sh: Set<Seq<char>>, k: nat, us: Seq<(Seq<char>, usize, SExpr)>)
    ensures
        !sfold_updates(env, sh, k, us).1 ==> sfold_updates(env, sh, k, us).0 == us,
    decreases k, us, 0nat,
{
    if us.len() > 0 {
        lemma_quiet_updates(env, sh, k, us.drop_last());
        lemma_quiet_fold(env, sh, k, us.last().2);
        if !sfold_updates(env, sh, k, us).1 {
            assert(sfold_updates(env, sh, k, us).0 =~= us);
        }
    } else {
        assert(sfold_updates(env, sh, k, us).0 =~= us);
    }
}

pub proof fn lemma_quiet_defs(env: FoldEnv, sh: Set<Seq<char>>, k: nat, ds: Seq<SDef>)
    ensures
        !sfold_defs(env, sh, k, ds).1 ==> sfold_defs(env, sh, k, ds).0 == ds,
    decreases k, ds, 0nat,
{
    if ds.len() > 0 {
        lemma_quiet_defs(env, sh, k, ds.drop_last());
        lemma_quiet_fold(env, sh + spats_vars(ds.last().patterns), k, ds.last().body);
        if !sfold_defs(env, sh, k, ds).1 {
            assert(sfold_defs(env, sh, k, ds).0 =~= ds);
        }
    } else {
        assert(sfold_defs(env, sh, k, ds).0 =~= ds);
    }
}

pub proof fn lemma_quiet_guards(env: FoldEnv, sh: Set<Seq<char>>, k: nat, gs: Seq<SGuard>)
    ensures
        !sfold_guards(env, sh, k, gs).1 ==> sfold_guards(env, sh, k, gs).0 == gs,
    decreases k, gs, 0nat,
{
    if gs.len() > 0 {
        lemma_quiet_guards(env, sh, k, gs.drop_last());
        lemma_quiet_fold(env, sh, k, gs.last().condition);
        lemma_quiet_fold(env, sh, k, gs.last().body);
        if !sfold_guards(env, sh, k, gs).1 {
            assert(sfold_guards(env, sh, k, gs).0 =~= gs);
        }
    } else {
        assert(sfold_guards(env, sh, k, gs).0 =~= gs);
    }
}

pub proof fn lemma_quiet_branches(env: FoldEnv, sh: Set<Seq<char>>, k: nat, bs: Seq<SBranch>)
    ensures
        !sfold_branches(env, sh, k, bs).1 ==> sfold_branches(env, sh, k, bs).0 == bs,
    decreases k, bs, 0nat,
{
    if bs.len() > 0 {
        let b = bs.last();
        lemma_quiet_branches(env, sh, k, bs.drop_last());
        lemma_quiet_guards(env, sh + spat_vars(b.pattern), k, b.guards);
        lemma_quiet_fold(env, sh + spat_vars(b.pattern), k, b.body);
        if !sfold_branches(env, sh, k, bs).1 {
            assert(sfold_branches(env, sh, k, bs).0 =~= bs);
        }
    } else {
        assert(sfold_branches(env, sh, k, bs).0 =~= bs);
    }
}

proof fn lemma_quiet_clauses(env: FoldEnv, cs: Seq<SClause>)
    ensures
        !sfold_clauses(env, cs).1 ==> sfold_clauses(env, cs).0 == cs,
    decreases cs.len(),
{
    if cs.len() > 0 {
        lemma_quiet_clauses(env, cs.drop_last());
        let c = cs.last();
        let sh = spats_vars(c.patterns) + def_names(c.where_binds);
        lemma_quiet_guards(env, sh, SPLICE_DEPTH as nat, c.guards);
        lemma_quiet_fold(env, sh, SPLICE_DEPTH as nat, c.body);
        lemma_quiet_defs(env, sh, SPLICE_DEPTH as nat, c.where_binds);
        if !sfold_clauses(env, cs).1 {
            assert(sfold_clauses(env, cs).0 =~= cs);
        }
    } else {
        assert(sfold_clauses(env, cs).0 =~= cs);
    }
}

proof fn lemma_quiet_fns(env: FoldEnv, fs: Seq<SFn>)
    ensures
        !sfold_fns(env, fs).1 ==> sfold_fns(env, fs).0 == fs,
    decreases fs.len(),
{
    if fs.len() > 0 {
        lemma_quiet_fns(env, fs.drop_last());
        lemma_quiet_clauses(env, fs.last().clauses);
        if !sfold_fns(env, fs).1 {
            assert(sfold_fns(env, fs).0 =~= fs);
        }
    } else {
        assert(sfold_fns(env, fs).0 =~= fs);
    }
}

/// A round that rewrites nothing hands the module back unchanged.
pub proof fn lemma_quiet_round(fs: Seq<SFn>, ins: Seq<SFn>)
    ensures
        !fold_round(fs, ins).2 ==> fold_round(fs, ins).0 == fs && fold_round(fs, ins).1 == ins,
{
    lemma_quiet_fns(env_of(fs), fs);
    lemma_quiet_fns(env_of(fs), ins);
}

/// Every one of the first `n` rounds rewrites something.
pub open spec fn rounds_all_change(fs: Seq<SFn>, ins: Seq<SFn>, n: nat) -> bool
    decreases n,
{
    n == 0 || (fold_round(fs, ins).2 && rounds_all_change(fold_round(fs, ins).0, fold_round(fs, ins).1, (n - 1) as nat))
}

/// Where the rounds stop before the cutoff, the fold has reached a fixed
/// point: one more round rewrites nothing and changes nothing.
pub proof fn lemma_fold_fix_is_fixed(fs: Seq<SFn>, ins: Seq<SFn>, n: nat)
    requires
        !rounds_all_change(fs, ins, n),
    ensures
        fold_round(fold_fix(fs, ins, n).0, fold_fix(fs, ins, n).1) == (fold_fix(fs, ins, n).0, fold_fix(fs, ins, n).1, false),
    decreases n,
{
    let (f1, f2, c) = fold_round(fs, ins);
    if c {
        lemma_fold_fix_is_fixed(f1, f2, (n - 1) as nat);
    } else {
        lemma_quiet_round(fs, ins);
    }
}

} // verus!
