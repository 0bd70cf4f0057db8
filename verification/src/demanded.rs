//! Boolean (semantic, whole-value) demand analysis: the set of free
//! variables that evaluating an expression to WHNF is guaranteed to force.
//!
//! A function's strictness row (`StrictEnv`) lets demand flow through
//! calls: an argument in a strict position of a known callee is demanded
//! whenever the call is. Branches contribute only what every alternative
//! demands; guards combine right to left (a body runs only when its
//! condition held, a later condition only when the earlier ones failed);
//! an `otherwise` condition makes its body unconditional. Lambda bodies
//! and tuple fields are deferred and demand nothing.

use vstd::prelude::*;
use crate::tir::{TPattern, TExpr, TExprKind, TGuard, TCaseBranch, TLocalDef};
use crate::types::is_con;
use crate::demand::NameSet;
use crate::text::str_eq;

verus! {

broadcast use vstd::string::group_string_axioms;

// ---------------------------------------------------------------------
// Environments
// ---------------------------------------------------------------------

/// The map a list of rows denotes: a later row for a name replaces an
/// earlier one.
pub open spec fn rows_map<V>(rows: Seq<(Seq<char>, V)>) -> Map<Seq<char>, V>
    decreases rows.len(),
{
    if rows.len() == 0 {
        Map::empty()
    } else {
        rows_map(rows.drop_last()).insert(rows.last().0, rows.last().1)
    }
}

proof fn lemma_rows_map_at<V>(rows: Seq<(Seq<char>, V)>, k: Seq<char>, i: int)
    requires
        0 <= i < rows.len(),
        rows[i].0 == k,
        forall|j: int| i < j < rows.len() ==> #[trigger] rows[j].0 != k,
    ensures
        rows_map(rows).contains_key(k),
        rows_map(rows)[k] == rows[i].1,
    decreases rows.len(),
{
    if i < rows.len() - 1 {
        lemma_rows_map_at(rows.drop_last(), k, i);
    }
}

proof fn lemma_rows_map_absent<V>(rows: Seq<(Seq<char>, V)>, k: Seq<char>)
    requires
        forall|j: int| 0 <= j < rows.len() ==> #[trigger] rows[j].0 != k,
    ensures
        !rows_map(rows).contains_key(k),
    decreases rows.len(),
{
    if rows.len() > 0 {
        lemma_rows_map_absent(rows.drop_last(), k);
    }
}

/// Known strictness rows: function name → per-parameter "forced on every
/// path".
pub struct StrictEnv {
    rows: Vec<(String, Vec<bool>)>,
}

pub open spec fn strict_rows(rows: Seq<(String, Vec<bool>)>) -> Seq<(Seq<char>, Seq<bool>)> {
    Seq::new(rows.len(), |i: int| (rows[i].0@, rows[i].1@))
}

impl View for StrictEnv {
    type V = Map<Seq<char>, Seq<bool>>;

    closed spec fn view(&self) -> Map<Seq<char>, Seq<bool>> {
        rows_map(strict_rows(self.rows@))
    }
}

impl StrictEnv {
    /// The rows in the order they were set.
    pub closed spec fn entries(&self) -> Seq<(Seq<char>, Seq<bool>)> {
        strict_rows(self.rows@)
    }

    /// The environment is its rows, a later row for a name replacing an
    /// earlier one.
    pub proof fn lemma_view_entries(&self)
        ensures
            self@ == rows_map(self.entries()),
    {
    }

    /// How many rows were set.
    pub fn num_entries(&self) -> (r: usize)
        ensures
            r == self.entries().len(),
    {
        self.rows.len()
    }

    /// The `i`-th row set.
    pub fn entry_at(&self, i: usize) -> (r: (&String, &Vec<bool>))
        requires
            i < self.entries().len(),
        ensures
            (r.0@, r.1@) == self.entries()[i as int],
    {
        (&self.rows[i].0, &self.rows[i].1)
    }

    /// No known functions.
    pub fn new() -> (r: StrictEnv)
        ensures
            r@ == Map::<Seq<char>, Seq<bool>>::empty(),
    {
        let r = StrictEnv { rows: Vec::new() };
        assert(strict_rows(r.rows@) =~= Seq::empty());
        r
    }

    /// Set the row of `name`.
    pub fn insert(&mut self, name: &str, row: Vec<bool>)
        ensures
            final(self)@ == old(self)@.insert(name@, row@),
    {
        let ghost old_rows = self.rows@;
        let ghost rv = row@;
        self.rows.push((String::from_str(name), row));
        assert(strict_rows(self.rows@).drop_last() =~= strict_rows(old_rows));
        assert(strict_rows(self.rows@).last() == (name@, rv));
    }

    /// A copy of the rows.
    pub fn copy(&self) -> (r: StrictEnv)
        ensures
            r@ == self@,
    {
        let mut r = StrictEnv::new();
        let mut i: usize = 0;
        while i < self.rows.len()
            invariant
                i <= self.rows@.len(),
                r@ == rows_map(strict_rows(self.rows@.take(i as int))),
            decreases self.rows@.len() - i,
        {
            let mut row: Vec<bool> = Vec::new();
            let mut j: usize = 0;
            while j < self.rows[i].1.len()
                invariant
                    i < self.rows@.len(),
                    j <= self.rows@[i as int].1@.len(),
                    row@ == self.rows@[i as int].1@.take(j as int),
                decreases self.rows@[i as int].1@.len() - j,
            {
                row.push(self.rows[i].1[j]);
                assert(self.rows@[i as int].1@.take(j as int + 1) =~= self.rows@[i as int].1@.take(j as int).push(self.rows@[i as int].1@[j as int]));
                j = j + 1;
            }
            assert(self.rows@[i as int].1@.take(j as int) =~= self.rows@[i as int].1@);
            r.insert(self.rows[i].0.as_str(), row);
            proof {
                let t1 = strict_rows(self.rows@.take(i as int + 1));
                assert(t1.drop_last() =~= strict_rows(self.rows@.take(i as int)));
                assert(t1.last() == (self.rows@[i as int].0@, self.rows@[i as int].1@));
            }
            i = i + 1;
        }
        assert(self.rows@.take(self.rows@.len() as int) =~= self.rows@);
        r
    }

    /// The row of `name`, if known.
    pub fn get(&self, name: &str) -> (r: Option<&Vec<bool>>)
        ensures
            match r {
                Some(v) => self@.contains_key(name@) && self@[name@] == v@,
                None => !self@.contains_key(name@),
            },
    {
        let mut i = self.rows.len();
        while i > 0
            invariant
                i <= self.rows@.len(),
                forall|j: int| i <= j < self.rows@.len() ==> #[trigger] self.rows@[j].0@ != name@,
            decreases i,
        {
            i = i - 1;
            if str_eq(self.rows[i].0.as_str(), name) {
                proof {
                    let rs = strict_rows(self.rows@);
                    assert forall|j: int| i < j < rs.len() implies #[trigger] rs[j].0 != name@ by {
                        assert(rs[j].0 == self.rows@[j].0@);
                    }
                    lemma_rows_map_at(rs, name@, i as int);
                }
                return Some(&self.rows[i].1);
            }
        }
        proof {
            let rs = strict_rows(self.rows@);
            assert forall|j: int| 0 <= j < rs.len() implies #[trigger] rs[j].0 != name@ by {
                assert(rs[j].0 == self.rows@[j].0@);
            }
            lemma_rows_map_absent(rs, name@);
        }
        None
    }
}

/// Where-bound local functions in scope: name → (arity, the outer
/// variables the local's body forces on every path).
pub struct CapturedEnv {
    rows: Vec<(String, usize, NameSet)>,
}

pub open spec fn cap_rows(rows: Seq<(String, usize, NameSet)>) -> Seq<(Seq<char>, (nat, Set<Seq<char>>))> {
    Seq::new(rows.len(), |i: int| (rows[i].0@, (rows[i].1 as nat, rows[i].2@)))
}

impl View for CapturedEnv {
    type V = Map<Seq<char>, (nat, Set<Seq<char>>)>;

    closed spec fn view(&self) -> Map<Seq<char>, (nat, Set<Seq<char>>)> {
        rows_map(cap_rows(self.rows@))
    }
}

impl CapturedEnv {
    /// No local functions.
    pub fn new() -> (r: CapturedEnv)
        ensures
            r@ == Map::<Seq<char>, (nat, Set<Seq<char>>)>::empty(),
    {
        let r = CapturedEnv { rows: Vec::new() };
        assert(cap_rows(r.rows@) =~= Seq::empty());
        r
    }

    /// Set the entry of `name`.
    pub fn insert(&mut self, name: &str, arity: usize, caps: NameSet)
        ensures
            final(self)@ == old(self)@.insert(name@, (arity as nat, caps@)),
    {
        let ghost old_rows = self.rows@;
        let ghost cv = caps@;
        self.rows.push((String::from_str(name), arity, caps));
        assert(cap_rows(self.rows@).drop_last() =~= cap_rows(old_rows));
        assert(cap_rows(self.rows@).last() == (name@, (arity as nat, cv)));
    }

    /// The entry of `name`, if any.
    pub fn get(&self, name: &str) -> (r: Option<(usize, &NameSet)>)
        ensures
            match r {
                Some((a, s)) => self@.contains_key(name@) && self@[name@] == (a as nat, s@),
                None => !self@.contains_key(name@),
            },
    {
        let mut i = self.rows.len();
        while i > 0
            invariant
                i <= self.rows@.len(),
                forall|j: int| i <= j < self.rows@.len() ==> #[trigger] self.rows@[j].0@ != name@,
            decreases i,
        {
            i = i - 1;
            if str_eq(self.rows[i].0.as_str(), name) {
                proof {
                    let rs = cap_rows(self.rows@);
                    assert forall|j: int| i < j < rs.len() implies #[trigger] rs[j].0 != name@ by {
                        assert(rs[j].0 == self.rows@[j].0@);
                    }
                    lemma_rows_map_at(rs, name@, i as int);
                }
                return Some((self.rows[i].1, &self.rows[i].2));
            }
        }
        proof {
            let rs = cap_rows(self.rows@);
            assert forall|j: int| 0 <= j < rs.len() implies #[trigger] rs[j].0 != name@ by {
                assert(rs[j].0 == self.rows@[j].0@);
            }
            lemma_rows_map_absent(rs, name@);
        }
        None
    }
}

// ---------------------------------------------------------------------
// The analysis, stated
// ---------------------------------------------------------------------

/// A condition that is literally `otherwise` (constant true).
pub open spec fn is_otherwise(e: TExpr) -> bool {
    match e.kind {
        TExprKind::Var(n) => n@ == "otherwise"@,
        _ => false,
    }
}

/// Operand strictness of an infix operator.
pub enum Operands {
    /// Both operands forced to WHNF.
    Both,
    /// Only the left operand forced.
    Lhs,
    /// Neither operand forced.
    Neither,
    /// `seq`, `>>=`, `>>`: rules of their own.
    Own,
}

/// The operand-strictness table; `lhs_string` says the left operand is a
/// `String` (where `<>` is Lua string concatenation).
pub open spec fn op_operands(op: Seq<char>, lhs_string: bool) -> Operands {
    if op == "+"@ || op == "-"@ || op == "*"@ || op == "/"@ || op == "^"@ || op == "div"@ || op == "mod"@
        || op == "=="@ || op == "/="@ || op == "<"@ || op == ">"@ || op == "<="@ || op == ">="@ {
        Operands::Both
    } else if op == "&&"@ || op == "||"@ || op == "++"@ {
        Operands::Lhs
    } else if op == "<>"@ {
        if lhs_string { Operands::Both } else { Operands::Lhs }
    } else if op == "$"@ {
        Operands::Lhs
    } else if op == ":"@ {
        Operands::Neither
    } else if op == "seq"@ || op == ">>="@ || op == ">>"@ {
        Operands::Own
    } else {
        Operands::Neither
    }
}

/// The head of a curried application `f x y z` (`f`).
pub open spec fn app_head(e: TExpr) -> TExpr
    decreases e,
{
    match e.kind {
        TExprKind::App(f, _) => app_head(*f),
        _ => e,
    }
}

/// The number of arguments of a curried application.
pub open spec fn app_len(e: TExpr) -> nat
    decreases e,
{
    match e.kind {
        TExprKind::App(f, _) => app_len(*f) + 1,
        _ => 0,
    }
}

/// The arguments of a curried application, left to right.
pub open spec fn app_args(e: TExpr) -> Seq<TExpr>
    decreases e,
{
    match e.kind {
        TExprKind::App(f, a) => app_args(*f).push(*a),
        _ => Seq::empty(),
    }
}

/// The head's name when it is a variable.
pub open spec fn head_var(e: TExpr) -> Option<Seq<char>> {
    match app_head(e).kind {
        TExprKind::Var(n) => Some(n@),
        _ => None,
    }
}

/// Argument position `p` of a call whose head is `hv` is demanded: the
/// first argument of `seq`, or a strict position of a known callee.
pub open spec fn pos_demanded(hv: Option<Seq<char>>, p: nat, env: Map<Seq<char>, Seq<bool>>) -> bool {
    match hv {
        Some(h) => (h == "seq"@ && p == 0) || (env.contains_key(h) && p < env[h].len() && env[h][p as int]),
        None => false,
    }
}

/// What a saturated call of a where-bound local forces of its captures.
pub open spec fn cap_dem(hv: Option<Seq<char>>, n: nat, cap: Map<Seq<char>, (nat, Set<Seq<char>>)>) -> Set<Seq<char>> {
    match hv {
        Some(h) => if cap.contains_key(h) && n >= cap[h].0 { cap[h].1 } else { Set::empty() },
        None => Set::empty(),
    }
}

/// The variables a pattern binds.
pub open spec fn pat_vars(p: TPattern) -> Set<Seq<char>>
    decreases p,
{
    match p {
        TPattern::Var(n, _) => set![n@],
        TPattern::Constructor { name: _, args } => pats_vars(args@),
        TPattern::Paren(inner) => pat_vars(*inner),
        TPattern::Tuple(elems) => pats_vars(elems@),
        _ => Set::empty(),
    }
}

pub open spec fn pats_vars(s: Seq<TPattern>) -> Set<Seq<char>>
    decreases s,
{
    if s.len() == 0 {
        Set::empty()
    } else {
        pats_vars(s.drop_last()) + pat_vars(s.last())
    }
}

/// The names a group of `let` bindings binds.
pub open spec fn bind_names(bs: Seq<TLocalDef>) -> Set<Seq<char>> {
    Set::new(|n: Seq<char>| exists|i: int| 0 <= i < bs.len() && #[trigger] bs[i].name@ == n)
}

/// The variables evaluating `e` to WHNF forces.
pub open spec fn demanded(e: TExpr, env: Map<Seq<char>, Seq<bool>>, cap: Map<Seq<char>, (nat, Set<Seq<char>>)>) -> Set<Seq<char>>
    decreases e, 2nat,
{
    match e.kind {
        TExprKind::Var(x) => set![x@],
        TExprKind::App(f, _) => head_dem(*f, env, cap) + args_dem(e, head_var(e), env, cap)
            + cap_dem(head_var(e), app_len(e), cap),
        TExprKind::InfixApp { op, lhs, rhs } => match op_operands(op@, is_con(lhs.ty, "String"@)) {
            Operands::Both => demanded(*lhs, env, cap) + demanded(*rhs, env, cap),
            Operands::Lhs => demanded(*lhs, env, cap),
            Operands::Neither => Set::empty(),
            Operands::Own => if op@ == "seq"@ {
                demanded(*lhs, env, cap)
            } else {
                demanded(*lhs, env, cap) + demanded(*rhs, env, cap)
            },
        },
        TExprKind::Negate(x) => demanded(*x, env, cap),
        TExprKind::Paren(x) => demanded(*x, env, cap),
        TExprKind::If { cond, then_branch, else_branch } => if is_otherwise(*cond) {
            demanded(*then_branch, env, cap)
        } else {
            demanded(*cond, env, cap) + demanded(*then_branch, env, cap).intersect(demanded(*else_branch, env, cap))
        },
        TExprKind::Case { scrutinee, branches } => demanded(*scrutinee, env, cap) + branches_meet(branches@, env, cap),
        TExprKind::Let { binds, body } => let_fold(binds@, demanded(*body, env, cap), env, cap).difference(bind_names(binds@)),
        TExprKind::SpecCall { original, specialized: _, args } => if env.contains_key(original@) {
            strict_args(args@, env[original@], env, cap)
        } else {
            Set::empty()
        },
        TExprKind::DictCall { func_name, dict_args: _, value_args } => if env.contains_key(func_name@) {
            strict_args(value_args@, env[func_name@], env, cap)
        } else {
            Set::empty()
        },
        TExprKind::DictMethod { dict, method_name: _ } => demanded(*dict, env, cap),
        TExprKind::RecordUpdate { record, updates } => demanded(*record, env, cap) + updates_dem(updates@, env, cap),
        TExprKind::OutgoingCallback { callee, arity: _ } => demanded(*callee, env, cap),
        TExprKind::FfiMaybeArg { value } => demanded(*value, env, cap),
        _ => Set::empty(),
    }
}

/// The demand of an application's head (the function is always forced).
pub open spec fn head_dem(x: TExpr, env: Map<Seq<char>, Seq<bool>>, cap: Map<Seq<char>, (nat, Set<Seq<char>>)>) -> Set<Seq<char>>
    decreases x, 3nat,
{
    match x.kind {
        TExprKind::App(f, _) => head_dem(*f, env, cap),
        _ => demanded(x, env, cap),
    }
}

/// The demand of the arguments of the spine `x` in demanded positions.
pub open spec fn args_dem(x: TExpr, hv: Option<Seq<char>>, env: Map<Seq<char>, Seq<bool>>, cap: Map<Seq<char>, (nat, Set<Seq<char>>)>) -> Set<Seq<char>>
    decreases x, 1nat,
{
    match x.kind {
        TExprKind::App(f, a) => args_dem(*f, hv, env, cap) + if pos_demanded(hv, app_len(*f), env) {
            demanded(*a, env, cap)
        } else {
            Set::empty()
        },
        _ => Set::empty(),
    }
}

/// A `case` alternative: its body's (or guards') demand minus what its
/// pattern binds.
pub open spec fn branch_dem(b: TCaseBranch, env: Map<Seq<char>, Seq<bool>>, cap: Map<Seq<char>, (nat, Set<Seq<char>>)>) -> Set<Seq<char>>
    decreases b, 0nat,
{
    (if b.guards@.len() == 0 {
        demanded(b.body, env, cap)
    } else {
        guard_chain(b.guards@, env, cap)
    }).difference(pat_vars(b.pattern))
}

/// What every alternative demands (nothing for no alternatives).
pub open spec fn branches_meet(bs: Seq<TCaseBranch>, env: Map<Seq<char>, Seq<bool>>, cap: Map<Seq<char>, (nat, Set<Seq<char>>)>) -> Set<Seq<char>>
    decreases bs, 0nat,
{
    if bs.len() == 0 {
        Set::empty()
    } else if bs.len() == 1 {
        branch_dem(bs[0], env, cap)
    } else {
        branches_meet(bs.drop_last(), env, cap).intersect(branch_dem(bs.last(), env, cap))
    }
}

/// The guard-chain rule: `demand(c1) ∪ (demand(b1) ∩ demand(rest))`, the
/// demand past the last guard empty, an `otherwise` body unconditional.
pub open spec fn guard_chain(gs: Seq<TGuard>, env: Map<Seq<char>, Seq<bool>>, cap: Map<Seq<char>, (nat, Set<Seq<char>>)>) -> Set<Seq<char>>
    decreases gs, 0nat,
{
    if gs.len() == 0 {
        Set::empty()
    } else if is_otherwise(gs[0].condition) {
        demanded(gs[0].body, env, cap)
    } else {
        demanded(gs[0].condition, env, cap)
            + demanded(gs[0].body, env, cap).intersect(guard_chain(gs.drop_first(), env, cap))
    }
}

/// One ordered pass over `let` bindings: a binding whose name is demanded
/// so far adds its right-hand side's demand, less the variables its own
/// parameter patterns bind.
pub open spec fn let_fold(bs: Seq<TLocalDef>, acc: Set<Seq<char>>, env: Map<Seq<char>, Seq<bool>>, cap: Map<Seq<char>, (nat, Set<Seq<char>>)>) -> Set<Seq<char>>
    decreases bs, 0nat,
{
    if bs.len() == 0 {
        acc
    } else {
        let prev = let_fold(bs.drop_last(), acc, env, cap);
        if prev.contains(bs.last().name@) {
            prev + demanded(bs.last().body, env, cap).difference(pats_vars(bs.last().patterns@))
        } else {
            prev
        }
    }
}

/// The demand of the arguments in the strict positions of `mask`.
pub open spec fn strict_args(args: Seq<TExpr>, mask: Seq<bool>, env: Map<Seq<char>, Seq<bool>>, cap: Map<Seq<char>, (nat, Set<Seq<char>>)>) -> Set<Seq<char>>
    decreases args, 0nat,
{
    if args.len() == 0 {
        Set::empty()
    } else {
        strict_args(args.drop_last(), mask, env, cap) + if args.len() - 1 < mask.len() && mask[args.len() - 1] {
            demanded(args.last(), env, cap)
        } else {
            Set::empty()
        }
    }
}

/// Record-update values are assigned eagerly.
pub open spec fn updates_dem(us: Seq<(String, usize, TExpr)>, env: Map<Seq<char>, Seq<bool>>, cap: Map<Seq<char>, (nat, Set<Seq<char>>)>) -> Set<Seq<char>>
    decreases us, 0nat,
{
    if us.len() == 0 {
        Set::empty()
    } else {
        updates_dem(us.drop_last(), env, cap) + demanded(us.last().2, env, cap)
    }
}

// ---------------------------------------------------------------------
// Only variables of the expression are demanded
// ---------------------------------------------------------------------

/// The names of a lambda's parameters.
pub open spec fn lam_names(ps: Seq<(String, crate::types::Ty)>) -> Set<Seq<char>> {
    Set::new(|k: Seq<char>| exists|i: int| 0 <= i < ps.len() && #[trigger] ps[i].0@ == k)
}

/// The variables occurring free in `e`: lambda parameters, `case` pattern
/// variables, `let`-bound names and the parameters of `let`-bound
/// functions are bound in their scopes.
pub open spec fn vars(e: TExpr) -> Set<Seq<char>>
    decreases e, 1nat,
{
    match e.kind {
        TExprKind::Var(x) => set![x@],
        TExprKind::App(f, a) => vars(*f) + vars(*a),
        TExprKind::InfixApp { op: _, lhs, rhs } => vars(*lhs) + vars(*rhs),
        TExprKind::Lambda { params, body } => vars(*body).difference(lam_names(params@)),
        TExprKind::Negate(x) => vars(*x),
        TExprKind::Paren(x) => vars(*x),
        TExprKind::If { cond, then_branch, else_branch } => vars(*cond) + vars(*then_branch) + vars(*else_branch),
        TExprKind::Case { scrutinee, branches } => vars(*scrutinee) + vars_branches(branches@),
        TExprKind::Let { binds, body } => (vars_binds(binds@) + vars(*body)).difference(bind_names(binds@)),
        TExprKind::Tuple(elems) => vars_exprs(elems@),
        TExprKind::SpecCall { original: _, specialized: _, args } => vars_exprs(args@),
        TExprKind::DictCall { func_name: _, dict_args, value_args } => vars_exprs(dict_args@) + vars_exprs(value_args@),
        TExprKind::DictMethod { dict, method_name: _ } => vars(*dict),
        TExprKind::RecordUpdate { record, updates } => vars(*record) + vars_updates(updates@),
        TExprKind::OutgoingCallback { callee, arity: _ } => vars(*callee),
        TExprKind::FfiMaybeArg { value } => vars(*value),
        _ => Set::empty(),
    }
}

pub open spec fn vars_exprs(s: Seq<TExpr>) -> Set<Seq<char>>
    decreases s, 0nat,
{
    if s.len() == 0 {
        Set::empty()
    } else {
        vars_exprs(s.drop_last()) + vars(s.last())
    }
}

pub open spec fn vars_guards(gs: Seq<TGuard>) -> Set<Seq<char>>
    decreases gs, 0nat,
{
    if gs.len() == 0 {
        Set::empty()
    } else {
        vars(gs[0].condition) + vars(gs[0].body) + vars_guards(gs.drop_first())
    }
}

pub open spec fn vars_branches(bs: Seq<TCaseBranch>) -> Set<Seq<char>>
    decreases bs, 0nat,
{
    if bs.len() == 0 {
        Set::empty()
    } else {
        vars_branches(bs.drop_last()) + (vars_guards(bs.last().guards@) + vars(bs.last().body)).difference(pat_vars(bs.last().pattern))
    }
}

pub open spec fn vars_binds(bs: Seq<TLocalDef>) -> Set<Seq<char>>
    decreases bs, 0nat,
{
    if bs.len() == 0 {
        Set::empty()
    } else {
        vars_binds(bs.drop_last()) + vars(bs.last().body).difference(pats_vars(bs.last().patterns@))
    }
}

pub open spec fn vars_updates(us: Seq<(String, usize, TExpr)>) -> Set<Seq<char>>
    decreases us, 0nat,
{
    if us.len() == 0 {
        Set::empty()
    } else {
        vars_updates(us.drop_last()) + vars(us.last().2)
    }
}

/// The variable sets are finite.
pub proof fn lemma_vars_finite(e: TExpr)
    ensures
        vars(e).finite(),
    decreases e, 1nat,
{
    match e.kind {
        TExprKind::Var(x) => {},
        TExprKind::App(f, a) => {
            lemma_vars_finite(*f);
            lemma_vars_finite(*a);
        },
        TExprKind::InfixApp { op: _, lhs, rhs } => {
            lemma_vars_finite(*lhs);
            lemma_vars_finite(*rhs);
        },
        TExprKind::Lambda { params: _, body } => {
            lemma_vars_finite(*body);
        },
        TExprKind::Negate(x) => {
            lemma_vars_finite(*x);
        },
        TExprKind::Paren(x) => {
            lemma_vars_finite(*x);
        },
        TExprKind::If { cond, then_branch, else_branch } => {
            lemma_vars_finite(*cond);
            lemma_vars_finite(*then_branch);
            lemma_vars_finite(*else_branch);
        },
        TExprKind::Case { scrutinee, branches } => {
            lemma_vars_finite(*scrutinee);
            lemma_vars_branches_finite(branches@);
        },
        TExprKind::Let { binds, body } => {
            lemma_vars_binds_finite(binds@);
            lemma_vars_finite(*body);
        },
        TExprKind::Tuple(elems) => {
            lemma_vars_exprs_finite(elems@);
        },
        TExprKind::SpecCall { original: _, specialized: _, args } => {
            lemma_vars_exprs_finite(args@);
        },
        TExprKind::DictCall { func_name: _, dict_args, value_args } => {
            lemma_vars_exprs_finite(dict_args@);
            lemma_vars_exprs_finite(value_args@);
        },
        TExprKind::DictMethod { dict, method_name: _ } => {
            lemma_vars_finite(*dict);
        },
        TExprKind::RecordUpdate { record, updates } => {
            lemma_vars_finite(*record);
            lemma_vars_updates_finite(updates@);
        },
        TExprKind::OutgoingCallback { callee, arity: _ } => {
            lemma_vars_finite(*callee);
        },
        TExprKind::FfiMaybeArg { value } => {
            lemma_vars_finite(*value);
        },
        _ => {},
    }
}

proof fn lemma_vars_exprs_finite(s: Seq<TExpr>)
    ensures
        vars_exprs(s).finite(),
    decreases s, 0nat,
{
    if s.len() > 0 {
        lemma_vars_exprs_finite(s.drop_last());
        lemma_vars_finite(s.last());
    }
}

proof fn lemma_vars_guards_finite(gs: Seq<TGuard>)
    ensures
        vars_guards(gs).finite(),
    decreases gs, 0nat,
{
    if gs.len() > 0 {
        assert(decreases_to!(gs => gs[0]));
        lemma_vars_finite(gs[0].condition);
        lemma_vars_finite(gs[0].body);
        lemma_vars_guards_finite(gs.drop_first());
    }
}

proof fn lemma_vars_branches_finite(bs: Seq<TCaseBranch>)
    ensures
        vars_branches(bs).finite(),
    decreases bs, 0nat,
{
    if bs.len() > 0 {
        lemma_vars_branches_finite(bs.drop_last());
        lemma_vars_guards_finite(bs.last().guards@);
        lemma_vars_finite(bs.last().body);
    }
}

proof fn lemma_vars_binds_finite(bs: Seq<TLocalDef>)
    ensures
        vars_binds(bs).finite(),
    decreases bs, 0nat,
{
    if bs.len() > 0 {
        lemma_vars_binds_finite(bs.drop_last());
        lemma_vars_finite(bs.last().body);
    }
}

proof fn lemma_vars_updates_finite(us: Seq<(String, usize, TExpr)>)
    ensures
        vars_updates(us).finite(),
    decreases us, 0nat,
{
    if us.len() > 0 {
        lemma_vars_updates_finite(us.drop_last());
        lemma_vars_finite(us.last().2);
    }
}

/// Every name some captured set holds.
pub open spec fn cap_union(cap: Map<Seq<char>, (nat, Set<Seq<char>>)>) -> Set<Seq<char>> {
    Set::new(|x: Seq<char>| exists|n: Seq<char>| cap.contains_key(n) && #[trigger] cap[n].1.contains(x))
}

/// Evaluating `e` to WHNF demands only variables free in `e` and names
/// the captured sets in scope hold.
pub proof fn lemma_demanded_in_vars(e: TExpr, env: Map<Seq<char>, Seq<bool>>, cap: Map<Seq<char>, (nat, Set<Seq<char>>)>)
    ensures
        demanded(e, env, cap).subset_of(vars(e) + cap_union(cap)),
    decreases e, 2nat,
{
    let u = cap_union(cap);
    match e.kind {
        TExprKind::Var(x) => {},
        TExprKind::App(f, a) => {
            lemma_head_dem_vars(*f, env, cap);
            lemma_args_dem_vars(e, head_var(e), env, cap);
            match head_var(e) {
                Some(h) => {
                    if cap.contains_key(h) && app_len(e) >= cap[h].0 {
                        assert forall|x: Seq<char>| cap[h].1.contains(x) implies u.contains(x) by {}
                    }
                },
                None => {},
            }
        },
        TExprKind::InfixApp { op: _, lhs, rhs } => {
            lemma_demanded_in_vars(*lhs, env, cap);
            lemma_demanded_in_vars(*rhs, env, cap);
        },
        TExprKind::Negate(x) => {
            lemma_demanded_in_vars(*x, env, cap);
        },
        TExprKind::Paren(x) => {
            lemma_demanded_in_vars(*x, env, cap);
        },
        TExprKind::If { cond, then_branch, else_branch } => {
            lemma_demanded_in_vars(*cond, env, cap);
            lemma_demanded_in_vars(*then_branch, env, cap);
            lemma_demanded_in_vars(*else_branch, env, cap);
        },
        TExprKind::Case { scrutinee, branches } => {
            lemma_demanded_in_vars(*scrutinee, env, cap);
            lemma_branches_meet_vars(branches@, env, cap);
        },
        TExprKind::Let { binds, body } => {
            lemma_demanded_in_vars(*body, env, cap);
            lemma_let_fold_vars(binds@, demanded(*body, env, cap), env, cap);
        },
        TExprKind::SpecCall { original, specialized: _, args } => {
            if env.contains_key(original@) {
                lemma_strict_args_vars(args@, env[original@], env, cap);
            }
        },
        TExprKind::DictCall { func_name, dict_args: _, value_args } => {
            if env.contains_key(func_name@) {
                lemma_strict_args_vars(value_args@, env[func_name@], env, cap);
            }
        },
        TExprKind::DictMethod { dict, method_name: _ } => {
            lemma_demanded_in_vars(*dict, env, cap);
        },
        TExprKind::RecordUpdate { record, updates } => {
            lemma_demanded_in_vars(*record, env, cap);
            lemma_updates_vars(updates@, env, cap);
        },
        TExprKind::OutgoingCallback { callee, arity: _ } => {
            lemma_demanded_in_vars(*callee, env, cap);
        },
        TExprKind::FfiMaybeArg { value } => {
            lemma_demanded_in_vars(*value, env, cap);
        },
        _ => {},
    }
}

proof fn lemma_head_dem_vars(x: TExpr, env: Map<Seq<char>, Seq<bool>>, cap: Map<Seq<char>, (nat, Set<Seq<char>>)>)
    ensures
        head_dem(x, env, cap).subset_of(vars(x) + cap_union(cap)),
    decreases x, 3nat,
{
    match x.kind {
        TExprKind::App(f, _) => {
            lemma_head_dem_vars(*f, env, cap);
        },
        _ => {
            lemma_demanded_in_vars(x, env, cap);
        },
    }
}

proof fn lemma_args_dem_vars(x: TExpr, hv: Option<Seq<char>>, env: Map<Seq<char>, Seq<bool>>, cap: Map<Seq<char>, (nat, Set<Seq<char>>)>)
    ensures
        args_dem(x, hv, env, cap).subset_of(vars(x) + cap_union(cap)),
    decreases x, 1nat,
{
    match x.kind {
        TExprKind::App(f, a) => {
            lemma_args_dem_vars(*f, hv, env, cap);
            lemma_demanded_in_vars(*a, env, cap);
        },
        _ => {},
    }
}

proof fn lemma_guard_chain_vars(gs: Seq<TGuard>, env: Map<Seq<char>, Seq<bool>>, cap: Map<Seq<char>, (nat, Set<Seq<char>>)>)
    ensures
        guard_chain(gs, env, cap).subset_of(vars_guards(gs) + cap_union(cap)),
    decreases gs, 0nat,
{
    if gs.len() > 0 {
        assert(decreases_to!(gs => gs[0]));
        lemma_demanded_in_vars(gs[0].condition, env, cap);
        lemma_demanded_in_vars(gs[0].body, env, cap);
        lemma_guard_chain_vars(gs.drop_first(), env, cap);
    }
}

proof fn lemma_branch_dem_vars(b: TCaseBranch, env: Map<Seq<char>, Seq<bool>>, cap: Map<Seq<char>, (nat, Set<Seq<char>>)>)
    ensures
        branch_dem(b, env, cap).subset_of((vars_guards(b.guards@) + vars(b.body)).difference(pat_vars(b.pattern)) + cap_union(cap)),
    decreases b, 0nat,
{
    if b.guards@.len() == 0 {
        lemma_demanded_in_vars(b.body, env, cap);
    } else {
        lemma_guard_chain_vars(b.guards@, env, cap);
    }
}

proof fn lemma_branches_meet_vars(bs: Seq<TCaseBranch>, env: Map<Seq<char>, Seq<bool>>, cap: Map<Seq<char>, (nat, Set<Seq<char>>)>)
    ensures
        branches_meet(bs, env, cap).subset_of(vars_branches(bs) + cap_union(cap)),
    decreases bs, 0nat,
{
    if bs.len() == 1 {
        lemma_branch_dem_vars(bs[0], env, cap);
        assert(bs.drop_last() =~= Seq::<TCaseBranch>::empty());
        assert(bs.last() == bs[0]);
    } else if bs.len() > 1 {
        lemma_branches_meet_vars(bs.drop_last(), env, cap);
        lemma_branch_dem_vars(bs.last(), env, cap);
    }
}

proof fn lemma_let_fold_vars(bs: Seq<TLocalDef>, acc: Set<Seq<char>>, env: Map<Seq<char>, Seq<bool>>, cap: Map<Seq<char>, (nat, Set<Seq<char>>)>)
    ensures
        let_fold(bs, acc, env, cap).subset_of(acc + vars_binds(bs) + cap_union(cap)),
    decreases bs, 0nat,
{
    if bs.len() > 0 {
        lemma_let_fold_vars(bs.drop_last(), acc, env, cap);
        lemma_demanded_in_vars(bs.last().body, env, cap);
    }
}

proof fn lemma_strict_args_vars(args: Seq<TExpr>, mask: Seq<bool>, env: Map<Seq<char>, Seq<bool>>, cap: Map<Seq<char>, (nat, Set<Seq<char>>)>)
    ensures
        strict_args(args, mask, env, cap).subset_of(vars_exprs(args) + cap_union(cap)),
    decreases args, 0nat,
{
    if args.len() > 0 {
        lemma_strict_args_vars(args.drop_last(), mask, env, cap);
        lemma_demanded_in_vars(args.last(), env, cap);
    }
}

proof fn lemma_updates_vars(us: Seq<(String, usize, TExpr)>, env: Map<Seq<char>, Seq<bool>>, cap: Map<Seq<char>, (nat, Set<Seq<char>>)>)
    ensures
        updates_dem(us, env, cap).subset_of(vars_updates(us) + cap_union(cap)),
    decreases us, 0nat,
{
    if us.len() > 0 {
        lemma_updates_vars(us.drop_last(), env, cap);
        lemma_demanded_in_vars(us.last().2, env, cap);
    }
}

// ---------------------------------------------------------------------
// More known strictness demands more
// ---------------------------------------------------------------------

/// Every row of `e1` is in `e2`, and every position `e1` marks strict `e2`
/// marks strict too.
pub open spec fn env_le(e1: Map<Seq<char>, Seq<bool>>, e2: Map<Seq<char>, Seq<bool>>) -> bool {
    forall|k: Seq<char>| #[trigger] e1.contains_key(k) ==> e2.contains_key(k)
        && forall|i: int| 0 <= i < e1[k].len() && #[trigger] e1[k][i] ==> i < e2[k].len() && e2[k][i]
}

/// The demanded set grows with the strictness environment: what is demanded
/// under `e1` is demanded under any `e2` that knows at least as much.
pub proof fn lemma_demanded_monotone(e: TExpr, e1: Map<Seq<char>, Seq<bool>>, e2: Map<Seq<char>, Seq<bool>>, cap: Map<Seq<char>, (nat, Set<Seq<char>>)>)
    requires
        env_le(e1, e2),
    ensures
        demanded(e, e1, cap).subset_of(demanded(e, e2, cap)),
    decreases e, 2nat,
{
    match e.kind {
        TExprKind::Var(_) => {},
        TExprKind::App(f, _) => {
            lemma_head_dem_monotone(*f, e1, e2, cap);
            lemma_args_dem_monotone(e, head_var(e), e1, e2, cap);
        },
        TExprKind::InfixApp { op: _, lhs, rhs } => {
            lemma_demanded_monotone(*lhs, e1, e2, cap);
            lemma_demanded_monotone(*rhs, e1, e2, cap);
        },
        TExprKind::Negate(x) => {
            lemma_demanded_monotone(*x, e1, e2, cap);
        },
        TExprKind::Paren(x) => {
            lemma_demanded_monotone(*x, e1, e2, cap);
        },
        TExprKind::If { cond, then_branch, else_branch } => {
            lemma_demanded_monotone(*cond, e1, e2, cap);
            lemma_demanded_monotone(*then_branch, e1, e2, cap);
            lemma_demanded_monotone(*else_branch, e1, e2, cap);
        },
        TExprKind::Case { scrutinee, branches } => {
            lemma_demanded_monotone(*scrutinee, e1, e2, cap);
            lemma_branches_meet_monotone(branches@, e1, e2, cap);
        },
        TExprKind::Let { binds, body } => {
            lemma_demanded_monotone(*body, e1, e2, cap);
            lemma_let_fold_monotone(binds@, demanded(*body, e1, cap), demanded(*body, e2, cap), e1, e2, cap);
        },
        TExprKind::SpecCall { original, specialized: _, args } => {
            if e1.contains_key(original@) {
                lemma_strict_args_monotone(args@, e1[original@], e2[original@], e1, e2, cap);
            }
        },
        TExprKind::DictCall { func_name, dict_args: _, value_args } => {
            if e1.contains_key(func_name@) {
                lemma_strict_args_monotone(value_args@, e1[func_name@], e2[func_name@], e1, e2, cap);
            }
        },
        TExprKind::DictMethod { dict, method_name: _ } => {
            lemma_demanded_monotone(*dict, e1, e2, cap);
        },
        TExprKind::RecordUpdate { record, updates } => {
            lemma_demanded_monotone(*record, e1, e2, cap);
            lemma_updates_monotone(updates@, e1, e2, cap);
        },
        TExprKind::OutgoingCallback { callee, arity: _ } => {
            lemma_demanded_monotone(*callee, e1, e2, cap);
        },
        TExprKind::FfiMaybeArg { value } => {
            lemma_demanded_monotone(*value, e1, e2, cap);
        },
        _ => {},
    }
}

proof fn lemma_head_dem_monotone(x: TExpr, e1: Map<Seq<char>, Seq<bool>>, e2: Map<Seq<char>, Seq<bool>>, cap: Map<Seq<char>, (nat, Set<Seq<char>>)>)
    requires
        env_le(e1, e2),
    ensures
        head_dem(x, e1, cap).subset_of(head_dem(x, e2, cap)),
    decreases x, 3nat,
{
    match x.kind {
        TExprKind::App(f, _) => {
            lemma_head_dem_monotone(*f, e1, e2, cap);
        },
        _ => {
            lemma_demanded_monotone(x, e1, e2, cap);
        },
    }
}

proof fn lemma_args_dem_monotone(x: TExpr, hv: Option<Seq<char>>, e1: Map<Seq<char>, Seq<bool>>, e2: Map<Seq<char>, Seq<bool>>, cap: Map<Seq<char>, (nat, Set<Seq<char>>)>)
    requires
        env_le(e1, e2),
    ensures
        args_dem(x, hv, e1, cap).subset_of(args_dem(x, hv, e2, cap)),
    decreases x, 1nat,
{
    match x.kind {
        TExprKind::App(f, a) => {
            lemma_args_dem_monotone(*f, hv, e1, e2, cap);
            lemma_demanded_monotone(*a, e1, e2, cap);
            if pos_demanded(hv, app_len(*f), e1) {
                let h = hv->0;
                if !(h == "seq"@ && app_len(*f) == 0) {
                    assert(e1.contains_key(h));
                    assert(e1[h][app_len(*f) as int]);
                }
                assert(pos_demanded(hv, app_len(*f), e2));
            }
        },
        _ => {},
    }
}

proof fn lemma_guard_chain_monotone(gs: Seq<TGuard>, e1: Map<Seq<char>, Seq<bool>>, e2: Map<Seq<char>, Seq<bool>>, cap: Map<Seq<char>, (nat, Set<Seq<char>>)>)
    requires
        env_le(e1, e2),
    ensures
        guard_chain(gs, e1, cap).subset_of(guard_chain(gs, e2, cap)),
    decreases gs, 0nat,
{
    if gs.len() > 0 {
        assert(decreases_to!(gs => gs[0]));
        lemma_demanded_monotone(gs[0].condition, e1, e2, cap);
        lemma_demanded_monotone(gs[0].body, e1, e2, cap);
        lemma_guard_chain_monotone(gs.drop_first(), e1, e2, cap);
    }
}

proof fn lemma_branch_dem_monotone(b: TCaseBranch, e1: Map<Seq<char>, Seq<bool>>, e2: Map<Seq<char>, Seq<bool>>, cap: Map<Seq<char>, (nat, Set<Seq<char>>)>)
    requires
        env_le(e1, e2),
    ensures
        branch_dem(b, e1, cap).subset_of(branch_dem(b, e2, cap)),
    decreases b, 0nat,
{
    if b.guards@.len() == 0 {
        lemma_demanded_monotone(b.body, e1, e2, cap);
    } else {
        lemma_guard_chain_monotone(b.guards@, e1, e2, cap);
    }
}

proof fn lemma_branches_meet_monotone(bs: Seq<TCaseBranch>, e1: Map<Seq<char>, Seq<bool>>, e2: Map<Seq<char>, Seq<bool>>, cap: Map<Seq<char>, (nat, Set<Seq<char>>)>)
    requires
        env_le(e1, e2),
    ensures
        branches_meet(bs, e1, cap).subset_of(branches_meet(bs, e2, cap)),
    decreases bs, 0nat,
{
    if bs.len() == 1 {
        lemma_branch_dem_monotone(bs[0], e1, e2, cap);
    } else if bs.len() > 1 {
        lemma_branches_meet_monotone(bs.drop_last(), e1, e2, cap);
        lemma_branch_dem_monotone(bs.last(), e1, e2, cap);
    }
}

proof fn lemma_let_fold_monotone(bs: Seq<TLocalDef>, a1: Set<Seq<char>>, a2: Set<Seq<char>>, e1: Map<Seq<char>, Seq<bool>>, e2: Map<Seq<char>, Seq<bool>>, cap: Map<Seq<char>, (nat, Set<Seq<char>>)>)
    requires
        env_le(e1, e2),
        a1.subset_of(a2),
    ensures
        let_fold(bs, a1, e1, cap).subset_of(let_fold(bs, a2, e2, cap)),
    decreases bs, 0nat,
{
    if bs.len() > 0 {
        lemma_let_fold_monotone(bs.drop_last(), a1, a2, e1, e2, cap);
        lemma_demanded_monotone(bs.last().body, e1, e2, cap);
    }
}

proof fn lemma_strict_args_monotone(args: Seq<TExpr>, m1: Seq<bool>, m2: Seq<bool>, e1: Map<Seq<char>, Seq<bool>>, e2: Map<Seq<char>, Seq<bool>>, cap: Map<Seq<char>, (nat, Set<Seq<char>>)>)
    requires
        env_le(e1, e2),
        forall|i: int| 0 <= i < m1.len() && #[trigger] m1[i] ==> i < m2.len() && m2[i],
    ensures
        strict_args(args, m1, e1, cap).subset_of(strict_args(args, m2, e2, cap)),
    decreases args, 0nat,
{
    if args.len() > 0 {
        lemma_strict_args_monotone(args.drop_last(), m1, m2, e1, e2, cap);
        lemma_demanded_monotone(args.last(), e1, e2, cap);
        if args.len() - 1 < m1.len() && m1[args.len() - 1] {
            assert(m2[args.len() - 1]);
        }
    }
}

proof fn lemma_updates_monotone(us: Seq<(String, usize, TExpr)>, e1: Map<Seq<char>, Seq<bool>>, e2: Map<Seq<char>, Seq<bool>>, cap: Map<Seq<char>, (nat, Set<Seq<char>>)>)
    requires
        env_le(e1, e2),
    ensures
        updates_dem(us, e1, cap).subset_of(updates_dem(us, e2, cap)),
    decreases us, 0nat,
{
    if us.len() > 0 {
        lemma_updates_monotone(us.drop_last(), e1, e2, cap);
        lemma_demanded_monotone(us.last().2, e1, e2, cap);
    }
}

// ---------------------------------------------------------------------
// The analysis, computed
// ---------------------------------------------------------------------

pub open spec fn opt_str(o: Option<&String>) -> Option<Seq<char>> {
    match o {
        Some(s) => Some(s@),
        None => None,
    }
}

pub(crate) fn otherwise_cond(e: &TExpr) -> (r: bool)
    ensures
        r == is_otherwise(*e),
{
    match &e.kind {
        TExprKind::Var(n) => str_eq(n.as_str(), "otherwise"),
        _ => false,
    }
}

pub(crate) fn is_string_ty(ty: &crate::types::Ty) -> (r: bool)
    ensures
        r == is_con(*ty, "String"@),
{
    match ty {
        crate::types::Ty::Con(n) => str_eq(n.as_str(), "String"),
        _ => false,
    }
}

/// The operand-strictness table.
pub fn operands(op: &str, lhs_string: bool) -> (r: Operands)
    ensures
        r == op_operands(op@, lhs_string),
{
    if str_eq(op, "+") || str_eq(op, "-") || str_eq(op, "*") || str_eq(op, "/") || str_eq(op, "^")
        || str_eq(op, "div") || str_eq(op, "mod") || str_eq(op, "==") || str_eq(op, "/=")
        || str_eq(op, "<") || str_eq(op, ">") || str_eq(op, "<=") || str_eq(op, ">=") {
        Operands::Both
    } else if str_eq(op, "&&") || str_eq(op, "||") || str_eq(op, "++") {
        Operands::Lhs
    } else if str_eq(op, "<>") {
        if lhs_string { Operands::Both } else { Operands::Lhs }
    } else if str_eq(op, "$") {
        Operands::Lhs
    } else if str_eq(op, ":") {
        Operands::Neither
    } else if str_eq(op, "seq") || str_eq(op, ">>=") || str_eq(op, ">>") {
        Operands::Own
    } else {
        Operands::Neither
    }
}

/// Walk a curried application: its head, with its arguments appended.
fn spine<'a>(e: &'a TExpr, args: &mut Vec<&'a TExpr>) -> (h: &'a TExpr)
    ensures
        *h == app_head(*e),
        final(args)@.len() == old(args)@.len() + app_len(*e),
    decreases e,
{
    match &e.kind {
        TExprKind::App(f, a) => {
            let h = spine(f, args);
            args.push(&**a);
            h
        },
        _ => e,
    }
}

fn pos_dem(hv: Option<&String>, p: usize, env: &StrictEnv) -> (r: bool)
    ensures
        r == pos_demanded(opt_str(hv), p as nat, env@),
{
    match hv {
        Some(h) => {
            if str_eq(h.as_str(), "seq") && p == 0 {
                true
            } else {
                match env.get(h.as_str()) {
                    Some(mask) => p < mask.len() && mask[p],
                    None => false,
                }
            }
        },
        None => false,
    }
}

pub(crate) fn pat_vars_into(p: &TPattern, out: &mut NameSet)
    ensures
        final(out)@ == old(out)@ + pat_vars(*p),
    decreases p,
{
    match p {
        TPattern::Var(n, _) => out.insert(n.as_str()),
        TPattern::Constructor { name: _, args } => pats_vars_into(args, out),
        TPattern::Paren(inner) => pat_vars_into(inner, out),
        TPattern::Tuple(elems) => pats_vars_into(elems, out),
        _ => {},
    }
}

pub(crate) fn pats_vars_into(ps: &Vec<TPattern>, out: &mut NameSet)
    ensures
        final(out)@ == old(out)@ + pats_vars(ps@),
    decreases ps,
{
    let mut i: usize = 0;
    while i < ps.len()
        invariant
            i <= ps@.len(),
            out@ == old(out)@ + pats_vars(ps@.take(i as int)),
        decreases ps@.len() - i,
    {
        assert(decreases_to!(ps => ps@[i as int]));
        pat_vars_into(&ps[i], out);
        assert(ps@.take(i as int + 1).drop_last() =~= ps@.take(i as int));
        i = i + 1;
    }
    assert(ps@.take(ps@.len() as int) =~= ps@);
}

pub(crate) fn demanded_in(e: &TExpr, env: &StrictEnv, cap: &CapturedEnv) -> (r: NameSet)
    ensures
        r@ == demanded(*e, env@, cap@),
    decreases e, 2nat,
{
    match &e.kind {
        TExprKind::Var(x) => {
            let mut s = NameSet::new();
            s.insert(x.as_str());
            s
        },
        TExprKind::App(f, _) => {
            let mut s = head_dem_in(f, env, cap);
            let mut args: Vec<&TExpr> = Vec::new();
            let h = spine(e, &mut args);
            let hv: Option<&String> = match &h.kind {
                TExprKind::Var(n) => Some(n),
                _ => None,
            };
            assert(opt_str(hv) == head_var(*e));
            args_dem_in(e, hv, args.len(), env, cap, &mut s);
            if let Some(n) = hv {
                if let Some((arity, caps)) = cap.get(n.as_str()) {
                    if args.len() >= arity {
                        s.union_with(caps);
                    }
                }
            }
            s
        },
        TExprKind::InfixApp { op, lhs, rhs } => {
            match operands(op.as_str(), is_string_ty(&lhs.ty)) {
                Operands::Both => {
                    let mut s = demanded_in(lhs, env, cap);
                    s.union_with(&demanded_in(rhs, env, cap));
                    s
                },
                Operands::Lhs => demanded_in(lhs, env, cap),
                Operands::Neither => NameSet::new(),
                Operands::Own => {
                    if str_eq(op.as_str(), "seq") {
                        demanded_in(lhs, env, cap)
                    } else {
                        let mut s = demanded_in(lhs, env, cap);
                        s.union_with(&demanded_in(rhs, env, cap));
                        s
                    }
                },
            }
        },
        TExprKind::Negate(x) => demanded_in(x, env, cap),
        TExprKind::Paren(x) => demanded_in(x, env, cap),
        TExprKind::If { cond, then_branch, else_branch } => {
            if otherwise_cond(cond) {
                demanded_in(then_branch, env, cap)
            } else {
                let mut s = demanded_in(cond, env, cap);
                let t = demanded_in(then_branch, env, cap);
                let el = demanded_in(else_branch, env, cap);
                s.union_with(&t.intersect(&el));
                s
            }
        },
        TExprKind::Case { scrutinee, branches } => {
            let mut s = demanded_in(scrutinee, env, cap);
            s.union_with(&branches_meet_in(branches, env, cap));
            s
        },
        TExprKind::Let { binds, body } => {
            let b = demanded_in(body, env, cap);
            let_in(binds, b, env, cap)
        },
        TExprKind::SpecCall { original, specialized: _, args } => {
            match env.get(original.as_str()) {
                Some(mask) => strict_args_in(args, mask, env, cap),
                None => NameSet::new(),
            }
        },
        TExprKind::DictCall { func_name, dict_args: _, value_args } => {
            match env.get(func_name.as_str()) {
                Some(mask) => strict_args_in(value_args, mask, env, cap),
                None => NameSet::new(),
            }
        },
        TExprKind::DictMethod { dict, method_name: _ } => demanded_in(dict, env, cap),
        TExprKind::RecordUpdate { record, updates } => {
            let mut s = demanded_in(record, env, cap);
            s.union_with(&updates_in(updates, env, cap));
            s
        },
        TExprKind::OutgoingCallback { callee, arity: _ } => demanded_in(callee, env, cap),
        TExprKind::FfiMaybeArg { value } => demanded_in(value, env, cap),
        _ => NameSet::new(),
    }
}

fn head_dem_in(x: &TExpr, env: &StrictEnv, cap: &CapturedEnv) -> (r: NameSet)
    ensures
        r@ == head_dem(*x, env@, cap@),
    decreases x, 3nat,
{
    match &x.kind {
        TExprKind::App(f, _) => head_dem_in(f, env, cap),
        _ => demanded_in(x, env, cap),
    }
}

fn args_dem_in(x: &TExpr, hv: Option<&String>, n: usize, env: &StrictEnv, cap: &CapturedEnv, out: &mut NameSet)
    requires
        n == app_len(*x),
    ensures
        final(out)@ == old(out)@ + args_dem(*x, opt_str(hv), env@, cap@),
    decreases x, 1nat,
{
    match &x.kind {
        TExprKind::App(f, a) => {
            args_dem_in(f, hv, n - 1, env, cap, out);
            if pos_dem(hv, n - 1, env) {
                out.union_with(&demanded_in(a, env, cap));
            }
        },
        _ => {},
    }
}

fn branch_dem_in(b: &TCaseBranch, env: &StrictEnv, cap: &CapturedEnv) -> (r: NameSet)
    ensures
        r@ == branch_dem(*b, env@, cap@),
    decreases b, 0nat,
{
    let d = if b.guards.len() == 0 {
        demanded_in(&b.body, env, cap)
    } else {
        guard_chain_in(&b.guards, env, cap)
    };
    let mut vars = NameSet::new();
    pat_vars_into(&b.pattern, &mut vars);
    d.minus(&vars)
}

fn branches_meet_in(bs: &Vec<TCaseBranch>, env: &StrictEnv, cap: &CapturedEnv) -> (r: NameSet)
    ensures
        r@ == branches_meet(bs@, env@, cap@),
    decreases bs, 0nat,
{
    if bs.len() == 0 {
        return NameSet::new();
    }
    assert(decreases_to!(bs => bs@[0]));
    let mut acc = branch_dem_in(&bs[0], env, cap);
    assert(bs@.take(1).len() == 1 && bs@.take(1)[0] == bs@[0]);
    let mut i: usize = 1;
    while i < bs.len()
        invariant
            1 <= i <= bs@.len(),
            acc@ == branches_meet(bs@.take(i as int), env@, cap@),
        decreases bs@.len() - i,
    {
        assert(decreases_to!(bs => bs@[i as int]));
        let d = branch_dem_in(&bs[i], env, cap);
        acc = acc.intersect(&d);
        assert(bs@.take(i as int + 1).drop_last() =~= bs@.take(i as int));
        i = i + 1;
    }
    assert(bs@.take(bs@.len() as int) =~= bs@);
    acc
}

fn guard_chain_in(gs: &Vec<TGuard>, env: &StrictEnv, cap: &CapturedEnv) -> (r: NameSet)
    ensures
        r@ == guard_chain(gs@, env@, cap@),
    decreases gs, 0nat,
{
    let mut acc = NameSet::new();
    let mut i: usize = gs.len();
    assert(gs@.skip(i as int) =~= Seq::<TGuard>::empty());
    while i > 0
        invariant
            i <= gs@.len(),
            acc@ == guard_chain(gs@.skip(i as int), env@, cap@),
        decreases i,
    {
        i = i - 1;
        assert(decreases_to!(gs => gs@[i as int]));
        let g = &gs[i];
        assert(gs@.skip(i as int)[0] == gs@[i as int]);
        assert(gs@.skip(i as int).drop_first() =~= gs@.skip(i as int + 1));
        if otherwise_cond(&g.condition) {
            acc = demanded_in(&g.body, env, cap);
        } else {
            let mut c = demanded_in(&g.condition, env, cap);
            let b = demanded_in(&g.body, env, cap);
            c.union_with(&b.intersect(&acc));
            acc = c;
        }
    }
    assert(gs@.skip(0) =~= gs@);
    acc
}

/// The `let` rule: the ordered pass over the bindings, bound names removed.
fn let_in(bs: &Vec<TLocalDef>, body: NameSet, env: &StrictEnv, cap: &CapturedEnv) -> (r: NameSet)
    ensures
        r@ == let_fold(bs@, body@, env@, cap@).difference(bind_names(bs@)),
    decreases bs, 0nat,
{
    let ghost b0 = body@;
    let mut acc = body;
    let mut i: usize = 0;
    while i < bs.len()
        invariant
            i <= bs@.len(),
            acc@ == let_fold(bs@.take(i as int), b0, env@, cap@),
        decreases bs@.len() - i,
    {
        assert(decreases_to!(bs => bs@[i as int]));
        assert(bs@.take(i as int + 1).drop_last() =~= bs@.take(i as int));
        if acc.contains(bs[i].name.as_str()) {
            let d = demanded_in(&bs[i].body, env, cap);
            let mut pv = NameSet::new();
            pats_vars_into(&bs[i].patterns, &mut pv);
            let d = d.minus(&pv);
            acc.union_with(&d);
        }
        i = i + 1;
    }
    assert(bs@.take(bs@.len() as int) =~= bs@);
    let ghost folded = acc@;
    let mut j: usize = 0;
    while j < bs.len()
        invariant
            j <= bs@.len(),
            acc@ == folded.difference(bind_names(bs@.take(j as int))),
        decreases bs@.len() - j,
    {
        acc.remove(bs[j].name.as_str());
        proof {
            assert forall|n: Seq<char>| bind_names(bs@.take(j as int + 1)).contains(n)
                == bind_names(bs@.take(j as int)).insert(bs@[j as int].name@).contains(n) by {
                if bind_names(bs@.take(j as int + 1)).contains(n) {
                    let k = choose|k: int| 0 <= k < j + 1 && #[trigger] bs@.take(j as int + 1)[k].name@ == n;
                    if k < j {
                        assert(bs@.take(j as int)[k].name@ == n);
                    }
                }
                if bind_names(bs@.take(j as int)).contains(n) {
                    let k = choose|k: int| 0 <= k < j && #[trigger] bs@.take(j as int)[k].name@ == n;
                    assert(bs@.take(j as int + 1)[k].name@ == n);
                }
                if n == bs@[j as int].name@ {
                    assert(bs@.take(j as int + 1)[j as int].name@ == n);
                }
            }
            assert(bind_names(bs@.take(j as int + 1)) =~= bind_names(bs@.take(j as int)).insert(bs@[j as int].name@));
            assert(acc@ =~= folded.difference(bind_names(bs@.take(j as int + 1))));
        }
        j = j + 1;
    }
    acc
}

fn strict_args_in(args: &Vec<TExpr>, mask: &Vec<bool>, env: &StrictEnv, cap: &CapturedEnv) -> (r: NameSet)
    ensures
        r@ == strict_args(args@, mask@, env@, cap@),
    decreases args, 0nat,
{
    let mut acc = NameSet::new();
    let mut i: usize = 0;
    while i < args.len()
        invariant
            i <= args@.len(),
            acc@ == strict_args(args@.take(i as int), mask@, env@, cap@),
        decreases args@.len() - i,
    {
        assert(decreases_to!(args => args@[i as int]));
        assert(args@.take(i as int + 1).drop_last() =~= args@.take(i as int));
        if i < mask.len() && mask[i] {
            let d = demanded_in(&args[i], env, cap);
            acc.union_with(&d);
        }
        i = i + 1;
    }
    assert(args@.take(args@.len() as int) =~= args@);
    acc
}

fn updates_in(us: &Vec<(String, usize, TExpr)>, env: &StrictEnv, cap: &CapturedEnv) -> (r: NameSet)
    ensures
        r@ == updates_dem(us@, env@, cap@),
    decreases us, 0nat,
{
    let mut acc = NameSet::new();
    let mut i: usize = 0;
    while i < us.len()
        invariant
            i <= us@.len(),
            acc@ == updates_dem(us@.take(i as int), env@, cap@),
        decreases us@.len() - i,
    {
        assert(decreases_to!(us => us@[i as int]));
        assert(us@.take(i as int + 1).drop_last() =~= us@.take(i as int));
        let d = demanded_in(&us[i].2, env, cap);
        acc.union_with(&d);
        i = i + 1;
    }
    assert(us@.take(us@.len() as int) =~= us@);
    acc
}

/// The free variables guaranteed to be forced when `expr` is evaluated to
/// WHNF, with `env` giving the strictness of known functions.
pub fn demanded_vars(expr: &TExpr, env: &StrictEnv) -> (r: NameSet)
    ensures
        r@ == demanded(*expr, env@, Map::empty()),
        r@.subset_of(vars(*expr)),
{
    proof {
        lemma_demanded_in_vars(*expr, env@, Map::empty());
        assert(cap_union(Map::empty()) =~= Set::<Seq<char>>::empty());
    }
    demanded_in(expr, env, &CapturedEnv::new())
}

/// The demanded variables of a guard chain.
pub fn demanded_guards(guards: &Vec<TGuard>, env: &StrictEnv) -> (r: NameSet)
    ensures
        r@ == guard_chain(guards@, env@, Map::empty()),
        r@.subset_of(vars_guards(guards@)),
{
    proof {
        lemma_guard_chain_vars(guards@, env@, Map::empty());
        assert(cap_union(Map::empty()) =~= Set::<Seq<char>>::empty());
    }
    guard_chain_in(guards, env, &CapturedEnv::new())
}

} // verus!
