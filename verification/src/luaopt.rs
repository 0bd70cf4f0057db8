//! Facts about emitted Lua that the loop passes share: divergence, the
//! single-return callees, and the locals budget.

use vstd::prelude::*;
use crate::lua::{Expr, Stmt, Block, LExpr, LStmt, LTarget, FnTarget};
use crate::text::{chars_of, matches_at, occurs_at, str_eq};

verus! {

broadcast use vstd::string::group_string_axioms;

/// Lua's limit on the locals of one function, with headroom the emitter
/// keeps for its own temporaries.
pub const LOCAL_LIMIT: usize = 180;

// ---------------------------------------------------------------------
// Divergence
// ---------------------------------------------------------------------

/// Every path through the statement ends in `return` or a raised error:
/// control cannot pass it and continue in the enclosing block.
pub open spec fn stmt_diverges(s: LStmt) -> bool
    decreases s,
{
    match s {
        LStmt::Return(_) => true,
        LStmt::ReturnNone => true,
        LStmt::WhileTrue(_) => true,
        LStmt::Expr(e) => match e {
            LExpr::Call(f, _) => match *f {
                LExpr::Name(n) => n == "error"@,
                _ => false,
            },
            _ => false,
        },
        LStmt::If(_, t, arms, els) => match els {
            Some(e) => block_diverges(t) && arms_diverge(arms) && block_diverges(e),
            None => false,
        },
        LStmt::Do(b) => block_diverges(b),
        _ => false,
    }
}

spec fn cond_model(s: Stmt) -> LExpr {
    match s {
        Stmt::If { cond, then_b: _, elseifs: _, else_b: _ } => cond@,
        _ => LExpr::Name(Seq::empty()),
    }
}

/// The block's last statement diverges.
pub open spec fn block_diverges(ss: Seq<LStmt>) -> bool
    decreases ss,
{
    ss.len() > 0 && stmt_diverges(ss.last())
}

pub open spec fn arms_diverge(arms: Seq<(LExpr, Seq<LStmt>)>) -> bool
    decreases arms,
{
    arms.len() == 0 || (arms_diverge(arms.drop_last()) && block_diverges(arms.last().1))
}

/// Does the statement diverge?
pub fn stmt_diverges_exec(s: &Stmt) -> (r: bool)
    ensures
        r == stmt_diverges(s@),
    decreases s,
{
    let r = match s {
        Stmt::Return(_) => true,
        Stmt::ReturnNone => true,
        Stmt::WhileTrue(_) => true,
        Stmt::Expr(e) => {
            let r = match e {
                Expr::Call(f, args) => match &**f {
                    Expr::Name(n) => {
                        assert((**f)@ == LExpr::Name(n@));
                        str_eq(n.as_str(), "error")
                    },
                    _ => false,
                },
                _ => false,
            };
            assert(r == stmt_diverges(s@));
            r
        },
        Stmt::If { cond: _, then_b, elseifs, else_b } => {
            let r = match else_b {
                Some(e) => {
                    let a = block_diverges_exec(&then_b.0);
                    let b = arms_diverge_exec(elseifs);
                    let c = block_diverges_exec(&e.0);
                    a && b && c
                },
                None => false,
            };
            assert(r == stmt_diverges(s@));
            r
        },
        Stmt::Do(b) => block_diverges_exec(&b.0),
        _ => false,
    };
    r
}

/// Does the block diverge?
pub fn block_diverges_exec(ss: &Vec<Stmt>) -> (r: bool)
    ensures
        r == block_diverges(crate::lua::stmts_model(ss@)),
    decreases ss,
{
    if ss.len() == 0 {
        false
    } else {
        assert(decreases_to!(ss => ss@[ss@.len() - 1]));
        stmt_diverges_exec(&ss[ss.len() - 1])
    }
}

fn arms_diverge_exec(arms: &Vec<(Expr, Block)>) -> (r: bool)
    ensures
        r == arms_diverge(crate::lua::arms_model(arms@)),
    decreases arms,
{
    let mut i: usize = 0;
    while i < arms.len()
        invariant
            i <= arms@.len(),
            arms_diverge(crate::lua::arms_model(arms@.take(i as int))),
        decreases arms@.len() - i,
    {
        assert(decreases_to!(arms => arms@[i as int]));
        assert(crate::lua::arms_model(arms@.take(i as int + 1)).drop_last() =~= crate::lua::arms_model(arms@.take(i as int)));
        if !block_diverges_exec(&arms[i].1.0) {
            proof {
                assert(crate::lua::arms_model(arms@).take(i as int + 1) =~= crate::lua::arms_model(arms@.take(i as int + 1)));
                if arms_diverge(crate::lua::arms_model(arms@)) {
                    lemma_arms_diverge_prefix(crate::lua::arms_model(arms@), i as int + 1);
                }
            }
            return false;
        }
        i = i + 1;
    }
    assert(arms@.take(arms@.len() as int) =~= arms@);
    true
}

/// A diverging arm list has diverging prefixes.
proof fn lemma_arms_diverge_prefix(arms: Seq<(LExpr, Seq<LStmt>)>, n: int)
    requires
        0 <= n <= arms.len(),
        arms_diverge(arms),
    ensures
        arms_diverge(arms.take(n)),
    decreases arms.len(),
{
    if n < arms.len() {
        lemma_arms_diverge_prefix(arms.drop_last(), n);
        assert(arms.drop_last().take(n) =~= arms.take(n));
    } else {
        assert(arms.take(n) =~= arms);
    }
}

// ---------------------------------------------------------------------
// Single-return callees
// ---------------------------------------------------------------------

pub open spec fn starts_with(s: Seq<char>, p: Seq<char>) -> bool {
    occurs_at(s, p, 0)
}

/// Callees whose calls provably return exactly one value: the runtime
/// helpers other than the forwarders, the show family, and
/// compiled-function slots.
pub open spec fn single_return_callee(f: LExpr) -> bool {
    match f {
        LExpr::Name(n) => n == "__force"@ || n == "__thunk"@
            || (starts_with(n, "__mll_"@) && n != "__mll_opt_tail"@ && n != "__mll_run_tail"@ && n != "__mll_seq"@)
            || starts_with(n, "show"@),
        LExpr::Index(b, _) => match *b {
            LExpr::Name(n) => n == "__mll_fn"@,
            _ => false,
        },
        _ => false,
    }
}

pub fn str_starts_with(s: &str, p: &str) -> (r: bool)
    ensures
        r == starts_with(s@, p@),
{
    let sv = chars_of(s);
    let pv = chars_of(p);
    matches_at(&sv, &pv, 0)
}

/// Does a call of `f` provably return one value?
pub fn single_return_callee_exec(f: &Expr) -> (r: bool)
    ensures
        r == single_return_callee(f@),
{
    match f {
        Expr::Name(n) => {
            let s = n.as_str();
            let a = str_eq(s, "__force") || str_eq(s, "__thunk");
            let b = str_starts_with(s, "__mll_") && !str_eq(s, "__mll_opt_tail") && !str_eq(s, "__mll_run_tail")
                && !str_eq(s, "__mll_seq");
            let c = str_starts_with(s, "show");
            assert(f@ == LExpr::Name(n@));
            a || b || c
        },
        Expr::Index(b, _) => match &**b {
            Expr::Name(n) => {
                assert((**b)@ == LExpr::Name(n@));
                str_eq(n.as_str(), "__mll_fn")
            },
            _ => false,
        },
        _ => false,
    }
}

// ---------------------------------------------------------------------
// The locals budget
// ---------------------------------------------------------------------

/// Local declarations belonging to a function scope (sub-blocks summed,
/// nested function literals excluded: they are their own scope).
pub open spec fn count_locals(ss: Seq<LStmt>) -> nat
    decreases ss,
{
    if ss.len() == 0 {
        0
    } else {
        count_locals(ss.drop_last()) + stmt_locals(ss.last())
    }
}

pub open spec fn stmt_locals(s: LStmt) -> nat
    decreases s,
{
    match s {
        LStmt::Local(ns, _) => ns.len(),
        LStmt::Function(t, _, _) => match t {
            LTarget::LocalFn(_) => 1,
            _ => 0,
        },
        LStmt::If(_, t, arms, els) => count_locals(t) + arms_locals(arms) + match els {
            Some(e) => count_locals(e),
            None => 0,
        },
        LStmt::Do(b) => count_locals(b),
        LStmt::WhileTrue(b) => count_locals(b),
        _ => 0,
    }
}

pub open spec fn arms_locals(arms: Seq<(LExpr, Seq<LStmt>)>) -> nat
    decreases arms,
{
    if arms.len() == 0 {
        0
    } else {
        arms_locals(arms.drop_last()) + count_locals(arms.last().1)
    }
}

pub open spec fn min_nat(a: nat, b: nat) -> nat {
    if a < b { a } else { b }
}

/// `count_locals`, saturated at `cap`.
pub fn count_locals_capped(ss: &Vec<Stmt>, cap: usize) -> (r: usize)
    requires
        cap <= 1_000_000,
    ensures
        r as nat == min_nat(count_locals(crate::lua::stmts_model(ss@)), cap as nat),
    decreases ss,
{
    let mut acc: usize = 0;
    let mut i: usize = 0;
    while i < ss.len()
        invariant
            cap <= 1_000_000,
            i <= ss@.len(),
            acc as nat == min_nat(count_locals(crate::lua::stmts_model(ss@.take(i as int))), cap as nat),
        decreases ss@.len() - i,
    {
        assert(decreases_to!(ss => ss@[i as int]));
        assert(crate::lua::stmts_model(ss@.take(i as int + 1)).drop_last() =~= crate::lua::stmts_model(ss@.take(i as int)));
        let c = stmt_locals_capped(&ss[i], cap);
        acc = if acc + c < cap { acc + c } else { cap };
        i = i + 1;
    }
    assert(ss@.take(ss@.len() as int) =~= ss@);
    acc
}

fn stmt_locals_capped(s: &Stmt, cap: usize) -> (r: usize)
    requires
        cap <= 1_000_000,
    ensures
        r as nat == min_nat(stmt_locals(s@), cap as nat),
    decreases s,
{
    match s {
        Stmt::Local(ns, _) => if ns.len() < cap { ns.len() } else { cap },
        Stmt::Function { target, params: _, body: _ } => match target {
            FnTarget::LocalFn(_) => if 1 < cap { 1 } else { cap },
            _ => 0,
        },
        Stmt::If { cond: _, then_b, elseifs, else_b } => {
            let a = count_locals_capped(&then_b.0, cap);
            let b = arms_locals_capped(elseifs, cap);
            let c = match else_b {
                Some(e) => count_locals_capped(&e.0, cap),
                None => 0,
            };
            if a + b + c < cap { a + b + c } else { cap }
        },
        Stmt::Do(b) => count_locals_capped(&b.0, cap),
        Stmt::WhileTrue(b) => count_locals_capped(&b.0, cap),
        _ => 0,
    }
}

fn arms_locals_capped(arms: &Vec<(Expr, Block)>, cap: usize) -> (r: usize)
    requires
        cap <= 1_000_000,
    ensures
        r as nat == min_nat(arms_locals(crate::lua::arms_model(arms@)), cap as nat),
    decreases arms,
{
    let mut acc: usize = 0;
    let mut i: usize = 0;
    while i < arms.len()
        invariant
            cap <= 1_000_000,
            i <= arms@.len(),
            acc as nat == min_nat(arms_locals(crate::lua::arms_model(arms@.take(i as int))), cap as nat),
        decreases arms@.len() - i,
    {
        assert(decreases_to!(arms => arms@[i as int]));
        assert(crate::lua::arms_model(arms@.take(i as int + 1)).drop_last() =~= crate::lua::arms_model(arms@.take(i as int)));
        let c = count_locals_capped(&arms[i].1.0, cap);
        acc = if acc + c < cap { acc + c } else { cap };
        i = i + 1;
    }
    assert(arms@.take(arms@.len() as int) =~= arms@);
    acc
}

} // verus!
