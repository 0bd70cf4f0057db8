//! Mechanics shared by the runner-shaped loop passes: the runner-site
//! predicate, the site rewrite and its inverse, the loop scaffold and its
//! peel, and the return walker.
//!
//! The rewrite/unrewrite and build/peel pairs are exact inverses; that is
//! stated and proved below (`lemma_unrewrite_rewrite`,
//! `lemma_peel_build`).

use vstd::prelude::*;
use crate::lua::{Expr, Stmt, Block, LExpr, LStmt, strs_model, stmts_model, exprs_model, arms_model};
use crate::tailloop::{SName, SelfName, spelling, copies, copy_strings};
use crate::luaopt::block_diverges;
use crate::text::{str_eq, string_eq};

verus! {

broadcast use vstd::string::group_string_axioms;

pub open spec fn is_name(e: LExpr, s: Seq<char>) -> bool {
    match e {
        LExpr::Name(n) => n == s,
        _ => false,
    }
}

/// `__mll_run_tail(<e>)` in the exact spelling the emitter produces: one
/// `Name` callee, one argument, no paren layers.
pub open spec fn run_tail_arg(e: LExpr) -> Option<LExpr> {
    match e {
        LExpr::Call(f, args) => if is_name(*f, "__mll_run_tail"@) && args.len() == 1 {
            Some(args[0])
        } else {
            None
        },
        _ => None,
    }
}

/// `__mll_run_tail(<self>(e1..en))`: a rewritable runner site, both calls
/// in the exact emitted spelling (zero parameters: only a zero-argument
/// call).
pub open spec fn run_tail_self_args(e: LExpr, n: SName, ps: Seq<Seq<char>>) -> Option<Seq<LExpr>> {
    match run_tail_arg(e) {
        Some(a) => match a {
            LExpr::Call(c, cargs) => if is_name(*c, spelling(n)) && !(ps.len() == 0 && cargs.len() > 0) {
                Some(cargs)
            } else {
                None
            },
            _ => None,
        },
        None => None,
    }
}

/// Some `return` of the body (any depth of `if`/`do` nesting; nested
/// function bodies excluded) is a runner site.
pub open spec fn any_site(ss: Seq<LStmt>, n: SName, ps: Seq<Seq<char>>) -> bool
    decreases ss,
{
    ss.len() > 0 && (any_site(ss.drop_last(), n, ps) || stmt_site(ss.last(), n, ps))
}

pub open spec fn stmt_site(s: LStmt, n: SName, ps: Seq<Seq<char>>) -> bool
    decreases s,
{
    match s {
        LStmt::Return(e) => run_tail_self_args(e, n, ps) is Some,
        LStmt::If(_, t, arms, els) => any_site(t, n, ps) || arms_site(arms, n, ps) || match els {
            Some(b) => any_site(b, n, ps),
            None => false,
        },
        LStmt::Do(b) => any_site(b, n, ps),
        _ => false,
    }
}

pub open spec fn arms_site(arms: Seq<(LExpr, Seq<LStmt>)>, n: SName, ps: Seq<Seq<char>>) -> bool
    decreases arms,
{
    arms.len() > 0 && (arms_site(arms.drop_last(), n, ps) || any_site(arms.last().1, n, ps))
}

/// What a rewritten runner site becomes: the simultaneous update (none for
/// zero parameters) and the jump to the continue label.
pub open spec fn site_jump(ps: Seq<Seq<char>>, args: Seq<LExpr>) -> Seq<LStmt> {
    (if ps.len() > 0 { seq![LStmt::MultiAssign(ps, args)] } else { Seq::empty() })
        + seq![LStmt::Goto("continue"@)]
}

/// Every runner site rewritten, at every block position.
pub open spec fn rw_sites(ss: Seq<LStmt>, n: SName, ps: Seq<Seq<char>>) -> Seq<LStmt>
    decreases ss, 1nat,
{
    let inner = rw_children(ss, n, ps);
    if inner.len() > 0 && inner.last() is Return && run_tail_self_args(inner.last()->Return_0, n, ps) is Some {
        inner.drop_last() + site_jump(ps, run_tail_self_args(inner.last()->Return_0, n, ps)->0)
    } else {
        inner
    }
}

pub open spec fn rw_children(ss: Seq<LStmt>, n: SName, ps: Seq<Seq<char>>) -> Seq<LStmt>
    decreases ss, 0nat,
{
    Seq::new(ss.len(), |i: int| if 0 <= i < ss.len() { rw_site_stmt(ss[i], n, ps) } else { LStmt::ReturnNone })
}

pub open spec fn rw_site_stmt(s: LStmt, n: SName, ps: Seq<Seq<char>>) -> LStmt
    decreases s, 0nat,
{
    match s {
        LStmt::If(c, t, arms, els) => LStmt::If(c, rw_sites(t, n, ps), rw_site_arms(arms, n, ps), match els {
            Some(b) => Some(rw_sites(b, n, ps)),
            None => None,
        }),
        LStmt::Do(b) => LStmt::Do(rw_sites(b, n, ps)),
        _ => s,
    }
}

pub open spec fn rw_site_arms(arms: Seq<(LExpr, Seq<LStmt>)>, n: SName, ps: Seq<Seq<char>>) -> Seq<(LExpr, Seq<LStmt>)>
    decreases arms, 0nat,
{
    Seq::new(arms.len(), |i: int| if 0 <= i < arms.len() {
        (arms[i].0, rw_sites(arms[i].1, n, ps))
    } else {
        (LExpr::Name(Seq::empty()), Seq::empty())
    })
}

/// The loop-body scaffold: per-iteration copies, the body, and the
/// continue scaffolding (the exit guard only when the body can fall off).
pub open spec fn scaffold(ws: Seq<Seq<char>>, ps: Seq<Seq<char>>, body: Seq<LStmt>) -> Seq<LStmt> {
    copies(ws, ps) + body + (if !block_diverges(body) {
        seq![LStmt::Do(seq![LStmt::ReturnNone])]
    } else {
        Seq::empty()
    }) + seq![LStmt::Label("continue"@)]
}

// ---------------------------------------------------------------------
// The inverses
// ---------------------------------------------------------------------

/// The runner site for a self-call with `args`, in the exact spelling.
pub open spec fn site_expr(n: SName, args: Seq<LExpr>) -> LExpr {
    LExpr::Call(Box::new(LExpr::Name("__mll_run_tail"@)), seq![LExpr::Call(Box::new(LExpr::Name(spelling(n))), args)])
}

/// Undo `rw_sites`: a block-final `[…, ps = args, goto continue]` (or a
/// bare `goto continue` without parameters) becomes the runner site again;
/// `None` when the tree does not have the produced shape.
pub open spec fn unrw_sites(ss: Seq<LStmt>, n: SName, ps: Seq<Seq<char>>) -> Option<Seq<LStmt>>
    decreases ss, 1nat,
{
    match unrw_children(ss, n, ps) {
        Some(inner) => if inner.len() > 0 && inner.last() == LStmt::Goto("continue"@) {
            let rest = inner.drop_last();
            if ps.len() == 0 {
                Some(rest.push(LStmt::Return(site_expr(n, Seq::empty()))))
            } else if rest.len() > 0 && rest.last() is MultiAssign && rest.last()->MultiAssign_0 == ps {
                Some(rest.drop_last().push(LStmt::Return(site_expr(n, rest.last()->MultiAssign_1))))
            } else {
                None
            }
        } else {
            Some(inner)
        },
        None => None,
    }
}

pub open spec fn unrw_children(ss: Seq<LStmt>, n: SName, ps: Seq<Seq<char>>) -> Option<Seq<LStmt>>
    decreases ss, 0nat,
{
    if ss.len() == 0 {
        Some(ss)
    } else {
        match (unrw_children(ss.drop_last(), n, ps), unrw_site_stmt(ss.last(), n, ps)) {
            (Some(a), Some(b)) => Some(a.push(b)),
            _ => None,
        }
    }
}

pub open spec fn unrw_site_stmt(s: LStmt, n: SName, ps: Seq<Seq<char>>) -> Option<LStmt>
    decreases s, 0nat,
{
    match s {
        LStmt::If(c, t, arms, els) => match (unrw_sites(t, n, ps), unrw_arms(arms, n, ps)) {
            (Some(t2), Some(a2)) => match els {
                Some(b) => match unrw_sites(b, n, ps) {
                    Some(b2) => Some(LStmt::If(c, t2, a2, Some(b2))),
                    None => None,
                },
                None => Some(LStmt::If(c, t2, a2, None)),
            },
            _ => None,
        },
        LStmt::Do(b) => match unrw_sites(b, n, ps) {
            Some(b2) => Some(LStmt::Do(b2)),
            None => None,
        },
        _ => Some(s),
    }
}

pub open spec fn unrw_arms(arms: Seq<(LExpr, Seq<LStmt>)>, n: SName, ps: Seq<Seq<char>>) -> Option<Seq<(LExpr, Seq<LStmt>)>>
    decreases arms, 0nat,
{
    if arms.len() == 0 {
        Some(arms)
    } else {
        match (unrw_arms(arms.drop_last(), n, ps), unrw_sites(arms.last().1, n, ps)) {
            (Some(a), Some(b)) => Some(a.push((arms.last().0, b))),
            _ => None,
        }
    }
}

/// No block of the tree (at any `if`/`do` depth) already ends with
/// `goto continue`.
pub open spec fn no_cont(ss: Seq<LStmt>) -> bool
    decreases ss, 1nat,
{
    (ss.len() == 0 || ss.last() != LStmt::Goto("continue"@)) && all_no_cont(ss)
}

pub open spec fn all_no_cont(ss: Seq<LStmt>) -> bool
    decreases ss, 0nat,
{
    ss.len() == 0 || (all_no_cont(ss.drop_last()) && stmt_no_cont(ss.last()))
}

pub open spec fn stmt_no_cont(s: LStmt) -> bool
    decreases s, 0nat,
{
    match s {
        LStmt::If(_, t, arms, els) => no_cont(t) && arms_no_cont(arms) && match els {
            Some(b) => no_cont(b),
            None => true,
        },
        LStmt::Do(b) => no_cont(b),
        _ => true,
    }
}

pub open spec fn arms_no_cont(arms: Seq<(LExpr, Seq<LStmt>)>) -> bool
    decreases arms, 0nat,
{
    arms.len() == 0 || (arms_no_cont(arms.drop_last()) && no_cont(arms.last().1))
}

/// A runner site is exactly the expression its arguments rebuild.
pub proof fn lemma_site_expr(e: LExpr, n: SName, ps: Seq<Seq<char>>)
    requires
        run_tail_self_args(e, n, ps) is Some,
    ensures
        e == site_expr(n, run_tail_self_args(e, n, ps)->0),
{
    match e {
        LExpr::Call(f, args) => {
            let a = args[0];
            match a {
                LExpr::Call(c, cargs) => {
                    assert(*f == LExpr::Name("__mll_run_tail"@));
                    assert(*c == LExpr::Name(spelling(n)));
                    assert(args =~= seq![a]);
                },
                _ => {},
            }
        },
        _ => {},
    }
}

/// Undoing the site rewrite gives the body back (for bodies that do not
/// already end a block with `goto continue`).
pub proof fn lemma_unrewrite_rewrite(ss: Seq<LStmt>, n: SName, ps: Seq<Seq<char>>)
    requires
        no_cont(ss),
    ensures
        unrw_sites(rw_sites(ss, n, ps), n, ps) == Some(ss),
    decreases ss, 1nat,
{
    lemma_unrw_children(ss, n, ps);
    let inner = rw_children(ss, n, ps);
    if inner.len() > 0 && inner.last() is Return && run_tail_self_args(inner.last()->Return_0, n, ps) is Some {
        let e = inner.last()->Return_0;
        let args = run_tail_self_args(e, n, ps)->0;
        lemma_site_expr(e, n, ps);
        let last = ss.len() - 1;
        assert(inner[last] == rw_site_stmt(ss[last], n, ps));
        assert(ss.last() == LStmt::Return(e));
        let pre = ss.drop_last();
        assert(all_no_cont(pre));
        lemma_unrw_children(pre, n, ps);
        assert(rw_children(pre, n, ps) =~= inner.drop_last());
        let out = rw_sites(ss, n, ps);
        assert(out == inner.drop_last() + site_jump(ps, args));
        lemma_unrw_children_jump(inner.drop_last(), ps, args, n);
        let u = pre + site_jump(ps, args);
        assert(unrw_children(out, n, ps) == Some(u));
        assert(u.last() == LStmt::Goto("continue"@));
        if ps.len() == 0 {
            assert(u.drop_last() =~= pre);
            assert(args =~= Seq::<LExpr>::empty());
            assert(pre.push(LStmt::Return(site_expr(n, Seq::empty()))) =~= ss);
        } else {
            assert(u.drop_last() =~= pre.push(LStmt::MultiAssign(ps, args)));
            assert(pre.push(LStmt::Return(site_expr(n, args))) =~= ss);
        }
    } else {
        assert(rw_sites(ss, n, ps) == inner);
        assert(unrw_children(inner, n, ps) == Some(ss));
    }
}

/// The children walk undoes itself, and the rewritten children are the
/// original ones when no site sits at the block end.
proof fn lemma_unrw_children(ss: Seq<LStmt>, n: SName, ps: Seq<Seq<char>>)
    requires
        all_no_cont(ss),
    ensures
        unrw_children(rw_children(ss, n, ps), n, ps) == Some(ss),
        rw_children(ss, n, ps).len() == ss.len(),
        forall|i: int| 0 <= i < ss.len() && !(ss[i] is If) && !(ss[i] is Do) ==> #[trigger] rw_children(ss, n, ps)[i] == ss[i],
    decreases ss, 0nat,
{
    let inner = rw_children(ss, n, ps);
    if ss.len() > 0 {
        lemma_unrw_children(ss.drop_last(), n, ps);
        assert(rw_children(ss.drop_last(), n, ps) =~= inner.drop_last());
        lemma_unrw_stmt(ss.last(), n, ps);
        assert(inner.last() == rw_site_stmt(ss.last(), n, ps));
        assert(unrw_children(inner, n, ps) == Some(ss.drop_last().push(ss.last())));
        assert(ss.drop_last().push(ss.last()) =~= ss);
    } else {
        assert(inner =~= ss);
    }
}

proof fn lemma_unrw_stmt(s: LStmt, n: SName, ps: Seq<Seq<char>>)
    requires
        stmt_no_cont(s),
    ensures
        unrw_site_stmt(rw_site_stmt(s, n, ps), n, ps) == Some(s),
        !(s is If) && !(s is Do) ==> rw_site_stmt(s, n, ps) == s,
    decreases s, 0nat,
{
    match s {
        LStmt::If(c, t, arms, els) => {
            lemma_unrewrite_rewrite(t, n, ps);
            lemma_unrw_arms(arms, n, ps);
            match els {
                Some(b) => {
                    lemma_unrewrite_rewrite(b, n, ps);
                },
                None => {},
            }
        },
        LStmt::Do(b) => {
            lemma_unrewrite_rewrite(b, n, ps);
        },
        _ => {},
    }
}

proof fn lemma_unrw_arms(arms: Seq<(LExpr, Seq<LStmt>)>, n: SName, ps: Seq<Seq<char>>)
    requires
        arms_no_cont(arms),
    ensures
        unrw_arms(rw_site_arms(arms, n, ps), n, ps) == Some(arms),
    decreases arms, 0nat,
{
    let r = rw_site_arms(arms, n, ps);
    if arms.len() > 0 {
        lemma_unrw_arms(arms.drop_last(), n, ps);
        assert(rw_site_arms(arms.drop_last(), n, ps) =~= r.drop_last());
        lemma_unrewrite_rewrite(arms.last().1, n, ps);
        assert(r.last() == (arms.last().0, rw_sites(arms.last().1, n, ps)));
        assert(arms.drop_last().push(arms.last()) =~= arms);
    } else {
        assert(r =~= arms);
    }
}

/// Appending the update and the jump keeps the children walk intact.
proof fn lemma_unrw_children_jump(pre: Seq<LStmt>, ps: Seq<Seq<char>>, args: Seq<LExpr>, n: SName)
    requires
        unrw_children(pre, n, ps) is Some,
    ensures
        unrw_children(pre + site_jump(ps, args), n, ps) == Some(unrw_children(pre, n, ps)->0 + site_jump(ps, args)),
{
    let j = site_jump(ps, args);
    let u = unrw_children(pre, n, ps)->0;
    let g = LStmt::Goto("continue"@);
    assert(unrw_site_stmt(g, n, ps) == Some(g));
    if ps.len() > 0 {
        let ma = LStmt::MultiAssign(ps, args);
        let p1 = pre.push(ma);
        assert(j =~= seq![ma, g]);
        assert(pre + j =~= p1.push(g));
        assert(p1.drop_last() =~= pre);
        assert(p1.last() == ma);
        assert(unrw_site_stmt(ma, n, ps) == Some(ma));
        assert(unrw_children(p1, n, ps) == Some(u.push(ma)));
        assert(p1.push(g).drop_last() =~= p1);
        assert(p1.push(g).last() == g);
        assert(unrw_children(p1.push(g), n, ps) == Some(u.push(ma).push(g)));
        assert(u.push(ma).push(g) =~= u + j);
    } else {
        assert(j =~= seq![g]);
        assert(pre + j =~= pre.push(g));
        assert(pre.push(g).drop_last() =~= pre);
        assert(pre.push(g).last() == g);
        assert(unrw_children(pre.push(g), n, ps) == Some(u.push(g)));
        assert(u.push(g) =~= u + j);
    }
}

/// Strip the loop scaffold: the copies, then the continue scaffolding;
/// `None` when the tree does not have the produced shape.
pub open spec fn peel_scaffold(inner: Seq<LStmt>, ws: Seq<Seq<char>>, ps: Seq<Seq<char>>) -> Option<Seq<LStmt>> {
    let k = ps.len();
    if inner.len() < k || inner.take(k as int) != copies(ws, ps) {
        None
    } else {
        let rest = inner.skip(k as int);
        let l = rest.len();
        if l >= 2 && rest[l - 2] == LStmt::Do(seq![LStmt::ReturnNone]) && rest[l - 1] == LStmt::Label("continue"@) {
            Some(rest.take(l - 2))
        } else if l >= 1 && rest[l - 1] == LStmt::Label("continue"@) {
            Some(rest.take(l - 1))
        } else {
            None
        }
    }
}

/// Peeling the scaffold gives the body back, for every body that does not
/// itself end with the exit guard `do return end` (such a body diverges, so
/// it gets no guard, and peeling would take its own last statement for one).
pub proof fn lemma_peel_build(ws: Seq<Seq<char>>, ps: Seq<Seq<char>>, body: Seq<LStmt>)
    requires
        body.len() == 0 || body.last() != LStmt::Do(seq![LStmt::ReturnNone]),
    ensures
        peel_scaffold(scaffold(ws, ps, body), ws, ps) == Some(body),
{
    let inner = scaffold(ws, ps, body);
    let k = ps.len();
    assert(copies(ws, ps).len() == k);
    assert(inner.take(k as int) =~= copies(ws, ps));
    let rest = inner.skip(k as int);
    let falls = !block_diverges(body);
    if falls {
        assert(rest =~= body + seq![LStmt::Do(seq![LStmt::ReturnNone]), LStmt::Label("continue"@)]);
        assert(rest.take(rest.len() - 2) =~= body);
    } else {
        assert(rest =~= body.push(LStmt::Label("continue"@)));
        assert(rest.take(rest.len() - 1) =~= body);
        if body.len() >= 1 {
            assert(rest[rest.len() - 2] == body.last());
        }
    }
}

// ---------------------------------------------------------------------
// Computed
// ---------------------------------------------------------------------

pub open spec fn opt_expr(o: Option<&Expr>) -> Option<LExpr> {
    match o {
        Some(e) => Some(e@),
        None => None,
    }
}

pub fn is_name_exec(e: &Expr, s: &str) -> (r: bool)
    ensures
        r == is_name(e@, s@),
{
    match e {
        Expr::Name(n) => str_eq(n.as_str(), s),
        _ => false,
    }
}

/// The argument of `__mll_run_tail(<e>)`.
pub fn run_tail_arg_exec(e: &Expr) -> (r: Option<&Expr>)
    ensures
        opt_expr(r) == run_tail_arg(e@),
{
    match e {
        Expr::Call(f, args) => {
            assert(e@ == LExpr::Call(Box::new((**f)@), exprs_model(args@)));
            if is_name_exec(f, "__mll_run_tail") && args.len() == 1 {
                assert(exprs_model(args@)[0] == args@[0]@);
                Some(&args[0])
            } else {
                None
            }
        },
        _ => None,
    }
}

pub open spec fn opt_args(o: Option<&Vec<Expr>>) -> Option<Seq<LExpr>> {
    match o {
        Some(a) => Some(exprs_model(a@)),
        None => None,
    }
}

/// The self-call arguments of a runner site.
pub fn run_tail_self_args_exec<'a>(e: &'a Expr, n: &SelfName, params: &Vec<String>) -> (r: Option<&'a Vec<Expr>>)
    ensures
        opt_args(r) == run_tail_self_args(e@, n@, strs_model(params@)),
{
    match run_tail_arg_exec(e) {
        Some(a) => match a {
            Expr::Call(c, cargs) => {
                assert(a@ == LExpr::Call(Box::new((**c)@), exprs_model(cargs@)));
                if is_name_exec(c, n.spelling().as_str()) && !(params.len() == 0 && cargs.len() > 0) {
                    Some(cargs)
                } else {
                    None
                }
            },
            _ => None,
        },
        None => None,
    }
}

/// Is some `return` of the body a runner site?
pub fn any_site_exec(ss: &Vec<Stmt>, n: &SelfName, params: &Vec<String>) -> (r: bool)
    ensures
        r == any_site(stmts_model(ss@), n@, strs_model(params@)),
    decreases ss,
{
    let mut acc = false;
    let mut i: usize = 0;
    while i < ss.len()
        invariant
            i <= ss@.len(),
            acc == any_site(stmts_model(ss@.take(i as int)), n@, strs_model(params@)),
        decreases ss@.len() - i,
    {
        assert(decreases_to!(ss => ss@[i as int]));
        assert(stmts_model(ss@.take(i as int + 1)).drop_last() =~= stmts_model(ss@.take(i as int)));
        if !acc {
            acc = stmt_site_exec(&ss[i], n, params);
        }
        i = i + 1;
    }
    assert(ss@.take(ss@.len() as int) =~= ss@);
    acc
}

fn stmt_site_exec(s: &Stmt, n: &SelfName, params: &Vec<String>) -> (r: bool)
    ensures
        r == stmt_site(s@, n@, strs_model(params@)),
    decreases s,
{
    match s {
        Stmt::Return(e) => run_tail_self_args_exec(e, n, params).is_some(),
        Stmt::If { cond: _, then_b, elseifs, else_b } => {
            any_site_exec(&then_b.0, n, params) || arms_site_exec(elseifs, n, params) || match else_b {
                Some(b) => any_site_exec(&b.0, n, params),
                None => false,
            }
        },
        Stmt::Do(b) => any_site_exec(&b.0, n, params),
        _ => false,
    }
}

fn arms_site_exec(arms: &Vec<(Expr, Block)>, n: &SelfName, params: &Vec<String>) -> (r: bool)
    ensures
        r == arms_site(arms_model(arms@), n@, strs_model(params@)),
    decreases arms,
{
    let mut acc = false;
    let mut i: usize = 0;
    while i < arms.len()
        invariant
            i <= arms@.len(),
            acc == arms_site(arms_model(arms@.take(i as int)), n@, strs_model(params@)),
        decreases arms@.len() - i,
    {
        assert(decreases_to!(arms => arms@[i as int]));
        assert(arms_model(arms@.take(i as int + 1)).drop_last() =~= arms_model(arms@.take(i as int)));
        if !acc {
            acc = any_site_exec(&arms[i].1.0, n, params);
        }
        i = i + 1;
    }
    assert(arms@.take(arms@.len() as int) =~= arms@);
    acc
}

/// The self-call arguments taken out of a runner site.
pub fn take_site_call_args(e: Expr, n: &SelfName, params: &Vec<String>) -> (r: Vec<Expr>)
    requires
        run_tail_self_args(e@, n@, strs_model(params@)) is Some,
    ensures
        run_tail_self_args(e@, n@, strs_model(params@)) == Some(exprs_model(r@)),
{
    match e {
        Expr::Call(f, args) => {
            let mut args = args;
            assert(exprs_model(args@)[0] == args@[0]@);
            let a = args.pop().unwrap();
            match a {
                Expr::Call(c, cargs) => {
                    assert(a@ == LExpr::Call(Box::new((*c)@), exprs_model(cargs@)));
                    cargs
                },
                _ => {
                    assert(false);
                    Vec::new()
                },
            }
        },
        _ => {
            assert(false);
            Vec::new()
        },
    }
}

/// Rewrite every runner site of the body (all block positions).
pub fn rw_sites_exec(ss: Vec<Stmt>, n: &SelfName, params: &Vec<String>) -> (r: Vec<Stmt>)
    ensures
        stmts_model(r@) == rw_sites(stmts_model(ss@), n@, strs_model(params@)),
    decreases ss, 1nat,
{
    let ghost m = stmts_model(ss@);
    let mut out = rw_children_exec(ss, n, params);
    let len = out.len();
    if len > 0 {
        let is_site = match &out[len - 1] {
            Stmt::Return(e) => run_tail_self_args_exec(e, n, params).is_some(),
            _ => false,
        };
        if is_site {
            let ghost o0 = out@;
            let last = out.pop().unwrap();
            assert(last == o0[len - 1]);
            match last {
                Stmt::Return(e) => {
                    let args = take_site_call_args(e, n, params);
                    let ghost before = stmts_model(out@);
                    assert(before =~= stmts_model(o0).drop_last());
                    if params.len() > 0 {
                        out.push(Stmt::MultiAssign(copy_strings(params), args));
                    }
                    out.push(Stmt::Goto(crate::text::string_from("continue")));
                    assert(stmts_model(out@) =~= before + site_jump(strs_model(params@), exprs_model(args@)));
                },
                _ => {},
            }
        }
    }
    out
}

fn rw_children_exec(ss: Vec<Stmt>, n: &SelfName, params: &Vec<String>) -> (r: Vec<Stmt>)
    ensures
        stmts_model(r@) == rw_children(stmts_model(ss@), n@, strs_model(params@)),
    decreases ss, 0nat,
{
    let ghost s0 = ss@;
    let len = ss.len();
    let mut rest = ss;
    let mut out: Vec<Stmt> = Vec::new();
    let mut i: usize = 0;
    while rest.len() > 0
        invariant
            len == s0.len(),
            ss@ == s0,
            i <= len,
            rest@ == s0.skip(i as int),
            out@.len() == i,
            forall|j: int| 0 <= j < i ==> #[trigger] out@[j]@ == rw_site_stmt(s0[j]@, n@, strs_model(params@)),
        decreases rest@.len(),
    {
        assert(s0.skip(i as int).len() > 0);
        let st = rest.remove(0);
        assert(s0[i as int] == st);
        assert(decreases_to!(ss => ss@[i as int]));
        out.push(rw_site_stmt_exec(st, n, params));
        assert(rest@ =~= s0.skip(i as int + 1));
        i = i + 1;
    }
    proof {
        let a = stmts_model(out@);
        let b = rw_children(stmts_model(s0), n@, strs_model(params@));
        assert forall|j: int| 0 <= j < a.len() implies a[j] == b[j] by {
            assert(a[j] == out@[j]@);
            assert(stmts_model(s0)[j] == s0[j]@);
        }
        assert(a =~= b);
    }
    out
}

fn rw_site_stmt_exec(s: Stmt, n: &SelfName, params: &Vec<String>) -> (r: Stmt)
    ensures
        r@ == rw_site_stmt(s@, n@, strs_model(params@)),
    decreases s, 0nat,
{
    match s {
        Stmt::If { cond, then_b, elseifs, else_b } => {
            let nt = rw_sites_exec(then_b.0, n, params);
            let na = rw_site_arms_exec(elseifs, n, params);
            let ne = match else_b {
                Some(b) => Some(Block(rw_sites_exec(b.0, n, params))),
                None => None,
            };
            Stmt::If { cond, then_b: Block(nt), elseifs: na, else_b: ne }
        },
        Stmt::Do(b) => Stmt::Do(Block(rw_sites_exec(b.0, n, params))),
        other => other,
    }
}

fn rw_site_arms_exec(arms: Vec<(Expr, Block)>, n: &SelfName, params: &Vec<String>) -> (r: Vec<(Expr, Block)>)
    ensures
        arms_model(r@) == rw_site_arms(arms_model(arms@), n@, strs_model(params@)),
    decreases arms, 0nat,
{
    let ghost a0 = arms@;
    let ghost am = arms_model(arms@);
    let len = arms.len();
    let mut rest = arms;
    let mut out: Vec<(Expr, Block)> = Vec::new();
    let mut i: usize = 0;
    while rest.len() > 0
        invariant
            len == a0.len(),
            arms@ == a0,
            am == arms_model(a0),
            i <= len,
            rest@ == a0.skip(i as int),
            out@.len() == i,
            forall|j: int| 0 <= j < i ==> #[trigger] arms_model(out@)[j] == rw_site_arms(am, n@, strs_model(params@))[j],
        decreases rest@.len(),
    {
        assert(a0.skip(i as int).len() > 0);
        let (c, b) = rest.remove(0);
        assert(a0[i as int] == (c, b));
        assert(decreases_to!(arms => arms@[i as int]));
        let nb = rw_sites_exec(b.0, n, params);
        let ghost old_out = out@;
        out.push((c, Block(nb)));
        proof {
            assert forall|j: int| 0 <= j < i + 1 implies #[trigger] arms_model(out@)[j] == rw_site_arms(am, n@, strs_model(params@))[j] by {
                if j < i {
                    assert(arms_model(out@)[j] == arms_model(old_out)[j]);
                }
            }
        }
        assert(rest@ =~= a0.skip(i as int + 1));
        i = i + 1;
    }
    assert(arms_model(out@) =~= rw_site_arms(am, n@, strs_model(params@)));
    out
}

/// Build the loop body: copies, the body, the continue scaffolding.
pub fn scaffold_exec(ws: &Vec<String>, params: &Vec<String>, body: Vec<Stmt>) -> (r: Vec<Stmt>)
    requires
        ws@.len() == params@.len(),
    ensures
        stmts_model(r@) == scaffold(strs_model(ws@), strs_model(params@), stmts_model(body@)),
{
    let ghost wm = strs_model(ws@);
    let ghost pm = strs_model(params@);
    let ghost bm = stmts_model(body@);
    let falls = !crate::luaopt::block_diverges_exec(&body);
    let mut inner: Vec<Stmt> = Vec::new();
    let mut i: usize = 0;
    while i < params.len()
        invariant
            ws@.len() == params@.len(),
            wm == strs_model(ws@),
            pm == strs_model(params@),
            i <= params@.len(),
            stmts_model(inner@) == copies(wm, pm).take(i as int),
        decreases params@.len() - i,
    {
        let w = ws[i].clone();
        let mut v: Vec<String> = Vec::new();
        v.push(w);
        let c = Stmt::Local(v, Some(Expr::name(params[i].as_str())));
        proof {
            assert(wm[i as int] == ws@[i as int]@);
            assert(pm[i as int] == params@[i as int]@);
            assert(strs_model(v@) =~= seq![wm[i as int]]);
            assert(c@ == copies(wm, pm)[i as int]);
        }
        let ghost before = stmts_model(inner@);
        inner.push(c);
        assert(stmts_model(inner@) =~= before.push(c@));
        assert(copies(wm, pm).take(i as int + 1) =~= copies(wm, pm).take(i as int).push(copies(wm, pm)[i as int]));
        i = i + 1;
    }
    assert(copies(wm, pm).take(params@.len() as int) =~= copies(wm, pm));
    let ghost head = inner@;
    let ghost bv = body@;
    let mut b = body;
    inner.append(&mut b);
    assert(stmts_model(inner@) =~= stmts_model(head) + stmts_model(bv));
    let ghost mid = inner@;
    if falls {
        let mut g: Vec<Stmt> = Vec::new();
        g.push(Stmt::ReturnNone);
        let d = Stmt::Do(Block(g));
        assert(d@ == LStmt::Do(seq![LStmt::ReturnNone])) by {
            assert(stmts_model(g@) =~= seq![LStmt::ReturnNone]);
        }
        inner.push(d);
    }
    let ghost mid2 = inner@;
    inner.push(Stmt::Label(crate::text::string_from("continue")));
    proof {
        if falls {
            assert(stmts_model(mid2) =~= stmts_model(mid) + seq![LStmt::Do(seq![LStmt::ReturnNone])]);
        } else {
            assert(stmts_model(mid2) =~= stmts_model(mid) + Seq::<LStmt>::empty());
        }
        assert(stmts_model(inner@) =~= stmts_model(mid2).push(LStmt::Label("continue"@)));
        assert(stmts_model(inner@) =~= scaffold(wm, pm, bm));
    }
    inner
}

} // verus!
