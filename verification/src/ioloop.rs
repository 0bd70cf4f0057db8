//! Two-level IO self-loop conversion.
//!
//! An IO/ST function with pattern dispatch compiles two-level: the outer
//! function runs the dispatch (argument forces, pattern tests, clause
//! bindings) when the action is built and returns a per-branch action
//! closure; the closure runs the effects. A self-recursive step is
//! `return __mll_run_tail(<self>(e…))` in tail position of a branch
//! closure. The conversion turns the whole shape into
//!
//! ```text
//! local _lp = function()
//!     while true do
//!         local _w0 = p0 …
//!         <the body renamed p→w, each branch closure's body spliced in
//!          place of its `return`, its tail self sites becoming
//!          `p0, … = e0, …` + `goto continue`; every other return
//!          running its value through `__mll_run_tail`>
//!         ::continue::
//!     end
//! end
//! <the original body, each `return <closure>` now `return _lp`>
//! ```
//!
//! Gates: at least one branch closure has a tail self site; every branch
//! closure diverges (its splice cannot fall into the following clause
//! tests); the build-time skeleton is repeat-safe (it runs once at build
//! and once more on the first iteration, so it may only hold bindings,
//! `if`/`do` structure, the `error` raise, non-slot nested definitions and
//! expressions over names, literals, operators, constructors and a closed
//! set of idempotent or pure helpers); the parameters can be renamed; and
//! both the outer scope and the loop closure stay within Lua's local
//! budget.

use vstd::prelude::*;
use crate::lua::{Expr, FuncBody, Stmt, Block, Item, FnTarget, LExpr, LBody, LItem, LStmt, LTarget,
    header_text, strs_model, stmts_model, exprs_model, arms_model, items_model};
use crate::tailloop::{SName, SelfName, self_target, qualifies, blk_stmts, ren_block, ws_of, used_text};
use crate::loopcore::{is_name, run_tail_self_args, site_jump, site_expr, scaffold};
use crate::performloop::{closure_stmts, run_tail_of};
use crate::luaopt::{block_diverges, count_locals, LOCAL_LIMIT};
use crate::tokens::has_token;
use crate::text::{is_ident_text, contains, repeat, str_eq};

verus! {

broadcast use vstd::string::group_string_axioms;

// ---------------------------------------------------------------------
// Branch discovery
// ---------------------------------------------------------------------

/// A tail position of a closure body (the last statement, through tail
/// `if` arms and `do` blocks) holds a runner self site.
pub open spec fn tail_site(ss: Seq<LStmt>, n: SName, ps: Seq<Seq<char>>) -> bool
    decreases ss,
{
    ss.len() > 0 && last_site(ss.last(), n, ps)
}

pub open spec fn last_site(s: LStmt, n: SName, ps: Seq<Seq<char>>) -> bool
    decreases s,
{
    match s {
        LStmt::Return(e) => run_tail_self_args(e, n, ps) is Some,
        LStmt::If(_, t, arms, els) => tail_site(t, n, ps) || arms_tail_site(arms, n, ps) || match els {
            Some(b) => tail_site(b, n, ps),
            None => false,
        },
        LStmt::Do(b) => tail_site(b, n, ps),
        _ => false,
    }
}

pub open spec fn arms_tail_site(arms: Seq<(LExpr, Seq<LStmt>)>, n: SName, ps: Seq<Seq<char>>) -> bool
    decreases arms,
{
    arms.len() > 0 && (arms_tail_site(arms.drop_last(), n, ps) || tail_site(arms.last().1, n, ps))
}

/// Some `return` of the body (any `if`/`do` depth) returns a branch
/// closure one of whose tail positions is a self site.
pub open spec fn closure_site(ss: Seq<LStmt>, n: SName, ps: Seq<Seq<char>>) -> bool
    decreases ss,
{
    ss.len() > 0 && (closure_site(ss.drop_last(), n, ps) || stmt_closure_site(ss.last(), n, ps))
}

pub open spec fn stmt_closure_site(s: LStmt, n: SName, ps: Seq<Seq<char>>) -> bool
    decreases s,
{
    match s {
        LStmt::Return(e) => match closure_stmts(e) {
            Some(b) => tail_site(b, n, ps),
            None => false,
        },
        LStmt::If(_, t, arms, els) => closure_site(t, n, ps) || arms_closure_site(arms, n, ps) || match els {
            Some(b) => closure_site(b, n, ps),
            None => false,
        },
        LStmt::Do(b) => closure_site(b, n, ps),
        _ => false,
    }
}

pub open spec fn arms_closure_site(arms: Seq<(LExpr, Seq<LStmt>)>, n: SName, ps: Seq<Seq<char>>) -> bool
    decreases arms,
{
    arms.len() > 0 && (arms_closure_site(arms.drop_last(), n, ps) || closure_site(arms.last().1, n, ps))
}

/// Every branch closure returned by the body (any `if`/`do` depth)
/// diverges.
pub open spec fn closures_diverge(ss: Seq<LStmt>) -> bool
    decreases ss,
{
    ss.len() == 0 || (closures_diverge(ss.drop_last()) && stmt_closures_diverge(ss.last()))
}

pub open spec fn stmt_closures_diverge(s: LStmt) -> bool
    decreases s,
{
    match s {
        LStmt::Return(e) => match closure_stmts(e) {
            Some(b) => block_diverges(b),
            None => true,
        },
        LStmt::If(_, t, arms, els) => closures_diverge(t) && arms_closures_diverge(arms) && match els {
            Some(b) => closures_diverge(b),
            None => true,
        },
        LStmt::Do(b) => closures_diverge(b),
        _ => true,
    }
}

pub open spec fn arms_closures_diverge(arms: Seq<(LExpr, Seq<LStmt>)>) -> bool
    decreases arms,
{
    arms.len() == 0 || (arms_closures_diverge(arms.drop_last()) && closures_diverge(arms.last().1))
}

// ---------------------------------------------------------------------
// The repeat-safe skeleton
// ---------------------------------------------------------------------

/// The helpers a repeated build may call: the idempotent cell memoizers
/// and the pure allocators and inspectors.
pub open spec fn safe_callee(f: LExpr) -> bool {
    match f {
        LExpr::Name(s) => s == "__force"@ || s == "__mll_head"@ || s == "__mll_tail"@
            || s == "__mll_tail_lazy"@ || s == "__thunk"@ || s == "__mll_cons"@
            || s == "__mll_lazy_cons"@ || s == "__mll_pure"@ || s == "getmetatable"@
            || s == "type"@ || s == "error"@,
        _ => false,
    }
}

pub open spec fn rs_expr(e: LExpr) -> bool
    decreases e,
{
    match e {
        LExpr::Name(_) => true,
        LExpr::Lit(_) => true,
        LExpr::Raw(_) => false,
        LExpr::Paren(b) => rs_expr(*b),
        LExpr::Neg(b) => rs_expr(*b),
        LExpr::Index(b, _) => rs_expr(*b),
        LExpr::Binop(_, l, r) => rs_expr(*l) && rs_expr(*r),
        LExpr::Table(items) => rs_items(items),
        LExpr::TableSpaced(items) => rs_items(items),
        LExpr::Func(_, _) => true,
        LExpr::Method(_, _, _) => false,
        LExpr::Call(f, args) => safe_callee(*f) && rs_exprs(args),
    }
}

pub open spec fn rs_exprs(s: Seq<LExpr>) -> bool
    decreases s,
{
    s.len() == 0 || (rs_exprs(s.drop_last()) && rs_expr(s.last()))
}

pub open spec fn rs_items(s: Seq<LItem>) -> bool
    decreases s,
{
    s.len() == 0 || (rs_items(s.drop_last()) && match s.last() {
        LItem::Pos(e) => rs_expr(e),
        LItem::KV(_, e) => rs_expr(e),
    })
}

pub open spec fn rs_stmt(s: LStmt) -> bool
    decreases s,
{
    match s {
        LStmt::Return(_) => true,
        LStmt::Local(_, init) => match init {
            Some(e) => rs_expr(e),
            None => true,
        },
        LStmt::Assign(l, e) => is_ident_text(l) && rs_expr(e),
        LStmt::AssignIf(l, c, t, e) => is_ident_text(l) && rs_expr(c) && rs_expr(t) && rs_expr(e),
        LStmt::If(c, t, arms, els) => rs_expr(c) && rs_block(t) && rs_arms(arms) && match els {
            Some(b) => rs_block(b),
            None => true,
        },
        LStmt::Do(b) => rs_block(b),
        LStmt::Expr(e) => match e {
            LExpr::Call(f, args) => is_name(*f, "error"@) && rs_exprs(args),
            _ => false,
        },
        LStmt::Function(t, hps, _) => !contains(header_text(t, hps), "__mll_fn"@),
        _ => false,
    }
}

pub open spec fn rs_block(s: Seq<LStmt>) -> bool
    decreases s,
{
    s.len() == 0 || (rs_block(s.drop_last()) && rs_stmt(s.last()))
}

pub open spec fn rs_arms(arms: Seq<(LExpr, Seq<LStmt>)>) -> bool
    decreases arms,
{
    arms.len() == 0 || (rs_arms(arms.drop_last()) && rs_expr(arms.last().0) && rs_block(arms.last().1))
}

// ---------------------------------------------------------------------
// The two body transformations
// ---------------------------------------------------------------------

/// The build-time skeleton: every branch-closure return redirected to the
/// loop closure `lp`; everything else verbatim.
pub open spec fn skel_block(ss: Seq<LStmt>, lp: Seq<char>) -> Seq<LStmt>
    decreases ss,
{
    Seq::new(ss.len(), |i: int| if 0 <= i < ss.len() { skel_stmt(ss[i], lp) } else { LStmt::ReturnNone })
}

pub open spec fn skel_stmt(s: LStmt, lp: Seq<char>) -> LStmt
    decreases s,
{
    match s {
        LStmt::Return(e) => if closure_stmts(e) is Some {
            LStmt::Return(LExpr::Name(lp))
        } else {
            s
        },
        LStmt::If(c, t, arms, els) => LStmt::If(c, skel_block(t, lp), skel_arms(arms, lp), match els {
            Some(b) => Some(skel_block(b, lp)),
            None => None,
        }),
        LStmt::Do(b) => LStmt::Do(skel_block(b, lp)),
        _ => s,
    }
}

pub open spec fn skel_arms(arms: Seq<(LExpr, Seq<LStmt>)>, lp: Seq<char>) -> Seq<(LExpr, Seq<LStmt>)>
    decreases arms,
{
    Seq::new(arms.len(), |i: int| if 0 <= i < arms.len() {
        (arms[i].0, skel_block(arms[i].1, lp))
    } else {
        (LExpr::Name(Seq::empty()), Seq::empty())
    })
}

/// Tail self sites of a spliced closure body become the update and the
/// jump (only through the last statement: the sites of a closure body
/// live in its own tail positions).
pub open spec fn rw_tail(ss: Seq<LStmt>, n: SName, ps: Seq<Seq<char>>) -> Seq<LStmt>
    decreases ss,
{
    if ss.len() == 0 {
        ss
    } else {
        ss.drop_last() + rw_tail_last(ss.last(), n, ps)
    }
}

pub open spec fn rw_tail_last(s: LStmt, n: SName, ps: Seq<Seq<char>>) -> Seq<LStmt>
    decreases s,
{
    match s {
        LStmt::Return(e) => match run_tail_self_args(e, n, ps) {
            Some(args) => site_jump(ps, args),
            None => seq![s],
        },
        LStmt::If(c, t, arms, els) => seq![LStmt::If(c, rw_tail(t, n, ps), rw_tail_arms(arms, n, ps), match els {
            Some(b) => Some(rw_tail(b, n, ps)),
            None => None,
        })],
        LStmt::Do(b) => seq![LStmt::Do(rw_tail(b, n, ps))],
        _ => seq![s],
    }
}

pub open spec fn rw_tail_arms(arms: Seq<(LExpr, Seq<LStmt>)>, n: SName, ps: Seq<Seq<char>>) -> Seq<(LExpr, Seq<LStmt>)>
    decreases arms,
{
    Seq::new(arms.len(), |i: int| if 0 <= i < arms.len() {
        (arms[i].0, rw_tail(arms[i].1, n, ps))
    } else {
        (LExpr::Name(Seq::empty()), Seq::empty())
    })
}

/// The loop-phase body: branch closures spliced with their tail sites
/// rewritten; every other return runs its value through the runner.
pub open spec fn loop_block(ss: Seq<LStmt>, n: SName, ps: Seq<Seq<char>>) -> Seq<LStmt>
    decreases ss,
{
    if ss.len() == 0 {
        ss
    } else {
        loop_block(ss.drop_last(), n, ps) + loop_stmt(ss.last(), n, ps)
    }
}

pub open spec fn loop_stmt(s: LStmt, n: SName, ps: Seq<Seq<char>>) -> Seq<LStmt>
    decreases s,
{
    match s {
        LStmt::Return(e) => match closure_stmts(e) {
            Some(b) => rw_tail(b, n, ps),
            None => seq![LStmt::Return(run_tail_of(e))],
        },
        LStmt::If(c, t, arms, els) => seq![LStmt::If(c, loop_block(t, n, ps), loop_arms(arms, n, ps), match els {
            Some(b) => Some(loop_block(b, n, ps)),
            None => None,
        })],
        LStmt::Do(b) => seq![LStmt::Do(loop_block(b, n, ps))],
        _ => seq![s],
    }
}

pub open spec fn loop_arms(arms: Seq<(LExpr, Seq<LStmt>)>, n: SName, ps: Seq<Seq<char>>) -> Seq<(LExpr, Seq<LStmt>)>
    decreases arms,
{
    Seq::new(arms.len(), |i: int| if 0 <= i < arms.len() {
        (arms[i].0, loop_block(arms[i].1, n, ps))
    } else {
        (LExpr::Name(Seq::empty()), Seq::empty())
    })
}

// ---------------------------------------------------------------------
// The inverse of the tail-site rewrite
// ---------------------------------------------------------------------

/// Undo `rw_tail`, over the same positions: a tail-block-final
/// `[…, ps = args, goto continue]` (or a bare `goto continue` without
/// parameters) becomes the runner self site again; `None` when the tree
/// does not have the produced shape.
pub open spec fn unrw_tail(ss: Seq<LStmt>, n: SName, ps: Seq<Seq<char>>) -> Option<Seq<LStmt>>
    decreases ss,
{
    if ss.len() == 0 {
        Some(ss)
    } else if ss.last() == LStmt::Goto("continue"@) {
        let rest = ss.drop_last();
        if ps.len() == 0 {
            Some(rest.push(LStmt::Return(site_expr(n, Seq::empty()))))
        } else if rest.len() > 0 && rest.last() is MultiAssign && rest.last()->MultiAssign_0 == ps {
            Some(rest.drop_last().push(LStmt::Return(site_expr(n, rest.last()->MultiAssign_1))))
        } else {
            None
        }
    } else {
        match unrw_tail_last(ss.last(), n, ps) {
            Some(s) => Some(ss.drop_last().push(s)),
            None => None,
        }
    }
}

pub open spec fn unrw_tail_last(s: LStmt, n: SName, ps: Seq<Seq<char>>) -> Option<LStmt>
    decreases s,
{
    match s {
        LStmt::If(c, t, arms, els) => match (unrw_tail(t, n, ps), unrw_tail_arms(arms, n, ps)) {
            (Some(t2), Some(a2)) => match els {
                Some(b) => match unrw_tail(b, n, ps) {
                    Some(b2) => Some(LStmt::If(c, t2, a2, Some(b2))),
                    None => None,
                },
                None => Some(LStmt::If(c, t2, a2, None)),
            },
            _ => None,
        },
        LStmt::Do(b) => match unrw_tail(b, n, ps) {
            Some(b2) => Some(LStmt::Do(b2)),
            None => None,
        },
        _ => Some(s),
    }
}

pub open spec fn unrw_tail_arms(arms: Seq<(LExpr, Seq<LStmt>)>, n: SName, ps: Seq<Seq<char>>) -> Option<Seq<(LExpr, Seq<LStmt>)>>
    decreases arms,
{
    if arms.len() == 0 {
        Some(arms)
    } else {
        match (unrw_tail_arms(arms.drop_last(), n, ps), unrw_tail(arms.last().1, n, ps)) {
            (Some(a), Some(b)) => Some(a.push((arms.last().0, b))),
            _ => None,
        }
    }
}

/// No tail block of the tree already ends with `goto continue`.
pub open spec fn tail_no_cont(ss: Seq<LStmt>) -> bool
    decreases ss,
{
    ss.len() == 0 || (ss.last() != LStmt::Goto("continue"@) && last_no_cont(ss.last()))
}

pub open spec fn last_no_cont(s: LStmt) -> bool
    decreases s,
{
    match s {
        LStmt::If(_, t, arms, els) => tail_no_cont(t) && arms_tail_no_cont(arms) && match els {
            Some(b) => tail_no_cont(b),
            None => true,
        },
        LStmt::Do(b) => tail_no_cont(b),
        _ => true,
    }
}

pub open spec fn arms_tail_no_cont(arms: Seq<(LExpr, Seq<LStmt>)>) -> bool
    decreases arms,
{
    arms.len() == 0 || (arms_tail_no_cont(arms.drop_last()) && tail_no_cont(arms.last().1))
}

/// Undoing the tail-site rewrite of a spliced closure body gives the body
/// back, for every body none of whose tail blocks already ends with
/// `goto continue`.
pub proof fn lemma_unrw_rw_tail(ss: Seq<LStmt>, n: SName, ps: Seq<Seq<char>>)
    requires
        tail_no_cont(ss),
    ensures
        unrw_tail(rw_tail(ss, n, ps), n, ps) == Some(ss),
    decreases ss,
{
    if ss.len() > 0 {
        let s = ss.last();
        let pre = ss.drop_last();
        let out = rw_tail(ss, n, ps);
        assert(out == pre + rw_tail_last(s, n, ps));
        let g = LStmt::Goto("continue"@);
        match s {
            LStmt::Return(e) => {
                match run_tail_self_args(e, n, ps) {
                    Some(args) => {
                        crate::loopcore::lemma_site_expr(e, n, ps);
                        if ps.len() == 0 {
                            assert(out =~= pre.push(g));
                            assert(out.drop_last() =~= pre);
                            assert(args =~= Seq::<LExpr>::empty());
                            assert(pre.push(LStmt::Return(site_expr(n, Seq::empty()))) =~= ss);
                        } else {
                            let ma = LStmt::MultiAssign(ps, args);
                            assert(out =~= pre.push(ma).push(g));
                            assert(out.drop_last() =~= pre.push(ma));
                            assert(pre.push(ma).drop_last() =~= pre);
                            assert(pre.push(LStmt::Return(site_expr(n, args))) =~= ss);
                        }
                    },
                    None => {
                        assert(out =~= pre.push(s));
                        assert(pre.push(s).drop_last() =~= pre);
                        assert(pre.push(s) =~= ss);
                    },
                }
            },
            LStmt::If(c, t, arms, els) => {
                lemma_unrw_rw_tail(t, n, ps);
                lemma_unrw_rw_tail_arms(arms, n, ps);
                match els {
                    Some(b) => {
                        lemma_unrw_rw_tail(b, n, ps);
                    },
                    None => {},
                }
                let s2 = LStmt::If(c, rw_tail(t, n, ps), rw_tail_arms(arms, n, ps), match els {
                    Some(b) => Some(rw_tail(b, n, ps)),
                    None => None,
                });
                assert(out =~= pre.push(s2));
                assert(pre.push(s2).drop_last() =~= pre);
                assert(unrw_tail_last(s2, n, ps) == Some(s));
                assert(pre.push(s) =~= ss);
            },
            LStmt::Do(b) => {
                lemma_unrw_rw_tail(b, n, ps);
                let s2 = LStmt::Do(rw_tail(b, n, ps));
                assert(out =~= pre.push(s2));
                assert(pre.push(s2).drop_last() =~= pre);
                assert(pre.push(s) =~= ss);
            },
            _ => {
                assert(out =~= pre.push(s));
                assert(pre.push(s).drop_last() =~= pre);
                assert(pre.push(s) =~= ss);
            },
        }
    }
}

proof fn lemma_unrw_rw_tail_arms(arms: Seq<(LExpr, Seq<LStmt>)>, n: SName, ps: Seq<Seq<char>>)
    requires
        arms_tail_no_cont(arms),
    ensures
        unrw_tail_arms(rw_tail_arms(arms, n, ps), n, ps) == Some(arms),
    decreases arms,
{
    let r = rw_tail_arms(arms, n, ps);
    if arms.len() > 0 {
        lemma_unrw_rw_tail_arms(arms.drop_last(), n, ps);
        assert(rw_tail_arms(arms.drop_last(), n, ps) =~= r.drop_last());
        lemma_unrw_rw_tail(arms.last().1, n, ps);
        assert(r.last() == (arms.last().0, rw_tail(arms.last().1, n, ps)));
        assert(arms.drop_last().push(arms.last()) =~= arms);
    } else {
        assert(r =~= arms);
    }
}

// ---------------------------------------------------------------------
// The conversion
// ---------------------------------------------------------------------

/// `_lp` followed by `k` underscores.
pub open spec fn lp_cand(k: nat) -> Seq<char> {
    "_lp"@ + repeat("_"@, k)
}

/// The loop closure's name: the first candidate that is no token of the
/// rendered function.
pub open spec fn lp_of(text: Seq<char>) -> Seq<char> {
    lp_cand(choose|k: nat| !has_token(text, lp_cand(k)) && forall|j: nat| j < k ==> has_token(text, #[trigger] lp_cand(j)))
}

/// The converted body of the module-level definition at `k`, when every
/// gate holds.
pub open spec fn io_convert(ss: Seq<LStmt>, k: int, t: LTarget, ps: Seq<Seq<char>>, body: Seq<LStmt>) -> Option<Seq<LStmt>> {
    match self_target(t, ps) {
        Some(n) => if qualifies(ss, k, n) && closure_site(body, n, ps) && closures_diverge(body)
            && rs_block(body) && !blk_stmts(body, ps) {
            let text = used_text(t, ps, body);
            let ws = ws_of(text, ps.len());
            let lp = lp_of(text);
            let inner = scaffold(ws, ps, loop_block(ren_block(body, ps, ws, Set::empty()), n, ps));
            if count_locals(body) + 1 > LOCAL_LIMIT || count_locals(inner) + 2 * ps.len() > LOCAL_LIMIT {
                None
            } else {
                Some(seq![LStmt::Local(seq![lp], Some(LExpr::Func(Seq::empty(), LBody::Block(seq![LStmt::WhileTrue(inner)]))))]
                    + skel_block(body, lp))
            }
        } else {
            None
        },
        None => None,
    }
}

// ---------------------------------------------------------------------
// Gates, computed
// ---------------------------------------------------------------------

pub open spec fn opt_block(o: Option<&Vec<Stmt>>) -> Option<Seq<LStmt>> {
    match o {
        Some(v) => Some(stmts_model(v@)),
        None => None,
    }
}

/// The body of a zero-parameter function literal (parens peeled).
fn closure_ref(e: &Expr) -> (r: Option<&Vec<Stmt>>)
    ensures
        opt_block(r) == closure_stmts(e@),
    decreases e,
{
    match e {
        Expr::Paren(b) => closure_ref(b),
        Expr::Func(ps, body) => {
            assert(e@ == LExpr::Func(strs_model(ps@), body@));
            if ps.len() == 0 {
                match body {
                    FuncBody::Inline(ss) => {
                        assert(body@ == LBody::Inline(stmts_model(ss@)));
                        Some(ss)
                    },
                    FuncBody::Block(Block(ss)) => {
                        assert(body@ == LBody::Block(stmts_model(ss@)));
                        Some(ss)
                    },
                }
            } else {
                None
            }
        },
        _ => None,
    }
}

fn tail_site_exec(ss: &Vec<Stmt>, n: &SelfName, params: &Vec<String>) -> (r: bool)
    ensures
        r == tail_site(stmts_model(ss@), n@, strs_model(params@)),
    decreases ss,
{
    let len = ss.len();
    if len == 0 {
        return false;
    }
    assert(decreases_to!(ss => ss@[len - 1]));
    assert(stmts_model(ss@).last() == ss@[len - 1]@);
    last_site_exec(&ss[len - 1], n, params)
}

fn last_site_exec(s: &Stmt, n: &SelfName, params: &Vec<String>) -> (r: bool)
    ensures
        r == last_site(s@, n@, strs_model(params@)),
    decreases s,
{
    match s {
        Stmt::Return(e) => crate::loopcore::run_tail_self_args_exec(e, n, params).is_some(),
        Stmt::If { cond: _, then_b, elseifs, else_b } => {
            tail_site_exec(&then_b.0, n, params) || arms_tail_site_exec(elseifs, n, params) || match else_b {
                Some(b) => tail_site_exec(&b.0, n, params),
                None => false,
            }
        },
        Stmt::Do(b) => tail_site_exec(&b.0, n, params),
        _ => false,
    }
}

fn arms_tail_site_exec(arms: &Vec<(Expr, Block)>, n: &SelfName, params: &Vec<String>) -> (r: bool)
    ensures
        r == arms_tail_site(arms_model(arms@), n@, strs_model(params@)),
    decreases arms,
{
    let mut acc = false;
    let mut i: usize = 0;
    while i < arms.len()
        invariant
            i <= arms@.len(),
            acc == arms_tail_site(arms_model(arms@.take(i as int)), n@, strs_model(params@)),
        decreases arms@.len() - i,
    {
        assert(decreases_to!(arms => arms@[i as int]));
        assert(arms_model(arms@.take(i as int + 1)).drop_last() =~= arms_model(arms@.take(i as int)));
        if !acc {
            acc = tail_site_exec(&arms[i].1.0, n, params);
        }
        i = i + 1;
    }
    assert(arms@.take(arms@.len() as int) =~= arms@);
    acc
}

fn closure_site_exec(ss: &Vec<Stmt>, n: &SelfName, params: &Vec<String>) -> (r: bool)
    ensures
        r == closure_site(stmts_model(ss@), n@, strs_model(params@)),
    decreases ss,
{
    let mut acc = false;
    let mut i: usize = 0;
    while i < ss.len()
        invariant
            i <= ss@.len(),
            acc == closure_site(stmts_model(ss@.take(i as int)), n@, strs_model(params@)),
        decreases ss@.len() - i,
    {
        assert(decreases_to!(ss => ss@[i as int]));
        assert(stmts_model(ss@.take(i as int + 1)).drop_last() =~= stmts_model(ss@.take(i as int)));
        if !acc {
            acc = stmt_closure_site_exec(&ss[i], n, params);
        }
        i = i + 1;
    }
    assert(ss@.take(ss@.len() as int) =~= ss@);
    acc
}

fn stmt_closure_site_exec(s: &Stmt, n: &SelfName, params: &Vec<String>) -> (r: bool)
    ensures
        r == stmt_closure_site(s@, n@, strs_model(params@)),
    decreases s,
{
    match s {
        Stmt::Return(e) => match closure_ref(e) {
            Some(b) => tail_site_exec(b, n, params),
            None => false,
        },
        Stmt::If { cond: _, then_b, elseifs, else_b } => {
            closure_site_exec(&then_b.0, n, params) || arms_closure_site_exec(elseifs, n, params) || match else_b {
                Some(b) => closure_site_exec(&b.0, n, params),
                None => false,
            }
        },
        Stmt::Do(b) => closure_site_exec(&b.0, n, params),
        _ => false,
    }
}

fn arms_closure_site_exec(arms: &Vec<(Expr, Block)>, n: &SelfName, params: &Vec<String>) -> (r: bool)
    ensures
        r == arms_closure_site(arms_model(arms@), n@, strs_model(params@)),
    decreases arms,
{
    let mut acc = false;
    let mut i: usize = 0;
    while i < arms.len()
        invariant
            i <= arms@.len(),
            acc == arms_closure_site(arms_model(arms@.take(i as int)), n@, strs_model(params@)),
        decreases arms@.len() - i,
    {
        assert(decreases_to!(arms => arms@[i as int]));
        assert(arms_model(arms@.take(i as int + 1)).drop_last() =~= arms_model(arms@.take(i as int)));
        if !acc {
            acc = closure_site_exec(&arms[i].1.0, n, params);
        }
        i = i + 1;
    }
    assert(arms@.take(arms@.len() as int) =~= arms@);
    acc
}

fn closures_diverge_exec(ss: &Vec<Stmt>) -> (r: bool)
    ensures
        r == closures_diverge(stmts_model(ss@)),
    decreases ss,
{
    let mut acc = true;
    let mut i: usize = 0;
    while i < ss.len()
        invariant
            i <= ss@.len(),
            acc == closures_diverge(stmts_model(ss@.take(i as int))),
        decreases ss@.len() - i,
    {
        assert(decreases_to!(ss => ss@[i as int]));
        assert(stmts_model(ss@.take(i as int + 1)).drop_last() =~= stmts_model(ss@.take(i as int)));
        if acc {
            acc = stmt_closures_diverge_exec(&ss[i]);
        }
        i = i + 1;
    }
    assert(ss@.take(ss@.len() as int) =~= ss@);
    acc
}

fn stmt_closures_diverge_exec(s: &Stmt) -> (r: bool)
    ensures
        r == stmt_closures_diverge(s@),
    decreases s,
{
    match s {
        Stmt::Return(e) => match closure_ref(e) {
            Some(b) => crate::luaopt::block_diverges_exec(b),
            None => true,
        },
        Stmt::If { cond: _, then_b, elseifs, else_b } => {
            closures_diverge_exec(&then_b.0) && arms_closures_diverge_exec(elseifs) && match else_b {
                Some(b) => closures_diverge_exec(&b.0),
                None => true,
            }
        },
        Stmt::Do(b) => closures_diverge_exec(&b.0),
        _ => true,
    }
}

fn arms_closures_diverge_exec(arms: &Vec<(Expr, Block)>) -> (r: bool)
    ensures
        r == arms_closures_diverge(arms_model(arms@)),
    decreases arms,
{
    let mut acc = true;
    let mut i: usize = 0;
    while i < arms.len()
        invariant
            i <= arms@.len(),
            acc == arms_closures_diverge(arms_model(arms@.take(i as int))),
        decreases arms@.len() - i,
    {
        assert(decreases_to!(arms => arms@[i as int]));
        assert(arms_model(arms@.take(i as int + 1)).drop_last() =~= arms_model(arms@.take(i as int)));
        if acc {
            acc = closures_diverge_exec(&arms[i].1.0);
        }
        i = i + 1;
    }
    assert(arms@.take(arms@.len() as int) =~= arms@);
    acc
}

fn safe_callee_exec(f: &Expr) -> (r: bool)
    ensures
        r == safe_callee(f@),
{
    match f {
        Expr::Name(s) => {
            let t = s.as_str();
            str_eq(t, "__force") || str_eq(t, "__mll_head") || str_eq(t, "__mll_tail")
                || str_eq(t, "__mll_tail_lazy") || str_eq(t, "__thunk") || str_eq(t, "__mll_cons")
                || str_eq(t, "__mll_lazy_cons") || str_eq(t, "__mll_pure") || str_eq(t, "getmetatable")
                || str_eq(t, "type") || str_eq(t, "error")
        },
        _ => false,
    }
}

fn rs_expr_exec(e: &Expr) -> (r: bool)
    ensures
        r == rs_expr(e@),
    decreases e,
{
    match e {
        Expr::Name(_) => true,
        Expr::Lit(_) => true,
        Expr::Raw(_) => false,
        Expr::Paren(b) => rs_expr_exec(b),
        Expr::Neg(b) => rs_expr_exec(b),
        Expr::Index(b, _) => rs_expr_exec(b),
        Expr::Binop(_, l, r) => rs_expr_exec(l) && rs_expr_exec(r),
        Expr::Table(items) => rs_items_exec(items),
        Expr::TableSpaced(items) => rs_items_exec(items),
        Expr::Func(_, _) => true,
        Expr::Method(_, _, _) => false,
        Expr::Call(f, args) => safe_callee_exec(f) && rs_exprs_exec(args),
    }
}

fn rs_exprs_exec(es: &Vec<Expr>) -> (r: bool)
    ensures
        r == rs_exprs(exprs_model(es@)),
    decreases es,
{
    let mut acc = true;
    let mut i: usize = 0;
    while i < es.len()
        invariant
            i <= es@.len(),
            acc == rs_exprs(exprs_model(es@.take(i as int))),
        decreases es@.len() - i,
    {
        assert(decreases_to!(es => es@[i as int]));
        assert(exprs_model(es@.take(i as int + 1)).drop_last() =~= exprs_model(es@.take(i as int)));
        if acc {
            acc = rs_expr_exec(&es[i]);
        }
        i = i + 1;
    }
    assert(es@.take(es@.len() as int) =~= es@);
    acc
}

fn rs_items_exec(its: &Vec<Item>) -> (r: bool)
    ensures
        r == rs_items(items_model(its@)),
    decreases its,
{
    let mut acc = true;
    let mut i: usize = 0;
    while i < its.len()
        invariant
            i <= its@.len(),
            acc == rs_items(items_model(its@.take(i as int))),
        decreases its@.len() - i,
    {
        assert(decreases_to!(its => its@[i as int]));
        assert(items_model(its@.take(i as int + 1)).drop_last() =~= items_model(its@.take(i as int)));
        if acc {
            acc = match &its[i] {
                Item::Pos(e) => rs_expr_exec(e),
                Item::KV(_, e) => rs_expr_exec(e),
            };
        }
        i = i + 1;
    }
    assert(its@.take(its@.len() as int) =~= its@);
    acc
}

fn rs_stmt_exec(s: &Stmt) -> (r: bool)
    ensures
        r == rs_stmt(s@),
    decreases s,
{
    match s {
        Stmt::Return(_) => true,
        Stmt::Local(_, init) => match init {
            Some(e) => rs_expr_exec(e),
            None => true,
        },
        Stmt::Assign(l, e) => crate::tokens::is_plain_ident(l.as_str()) && rs_expr_exec(e),
        Stmt::AssignIf { lhs, cond, then_e, else_e } => crate::tokens::is_plain_ident(lhs.as_str())
            && rs_expr_exec(cond) && rs_expr_exec(then_e) && rs_expr_exec(else_e),
        Stmt::If { cond, then_b, elseifs, else_b } => {
            rs_expr_exec(cond) && rs_block_exec(&then_b.0) && rs_arms_exec(elseifs) && match else_b {
                Some(b) => rs_block_exec(&b.0),
                None => true,
            }
        },
        Stmt::Do(b) => rs_block_exec(&b.0),
        Stmt::Expr(e) => match e {
            Expr::Call(f, args) => {
                assert(e@ == LExpr::Call(Box::new((**f)@), exprs_model(args@)));
                crate::loopcore::is_name_exec(f, "error") && rs_exprs_exec(args)
            },
            _ => false,
        },
        Stmt::Function { target, params, body: _ } => {
            let h = target.header_string(params);
            !crate::text::str_contains(h.as_str(), "__mll_fn")
        },
        _ => false,
    }
}

fn rs_block_exec(ss: &Vec<Stmt>) -> (r: bool)
    ensures
        r == rs_block(stmts_model(ss@)),
    decreases ss,
{
    let mut acc = true;
    let mut i: usize = 0;
    while i < ss.len()
        invariant
            i <= ss@.len(),
            acc == rs_block(stmts_model(ss@.take(i as int))),
        decreases ss@.len() - i,
    {
        assert(decreases_to!(ss => ss@[i as int]));
        assert(stmts_model(ss@.take(i as int + 1)).drop_last() =~= stmts_model(ss@.take(i as int)));
        if acc {
            acc = rs_stmt_exec(&ss[i]);
        }
        i = i + 1;
    }
    assert(ss@.take(ss@.len() as int) =~= ss@);
    acc
}

fn rs_arms_exec(arms: &Vec<(Expr, Block)>) -> (r: bool)
    ensures
        r == rs_arms(arms_model(arms@)),
    decreases arms,
{
    let mut acc = true;
    let mut i: usize = 0;
    while i < arms.len()
        invariant
            i <= arms@.len(),
            acc == rs_arms(arms_model(arms@.take(i as int))),
        decreases arms@.len() - i,
    {
        assert(decreases_to!(arms => arms@[i as int]));
        assert(arms_model(arms@.take(i as int + 1)).drop_last() =~= arms_model(arms@.take(i as int)));
        if acc {
            acc = rs_expr_exec(&arms[i].0) && rs_block_exec(&arms[i].1.0);
        }
        i = i + 1;
    }
    assert(arms@.take(arms@.len() as int) =~= arms@);
    acc
}

// ---------------------------------------------------------------------
// The transformations, computed
// ---------------------------------------------------------------------

fn skel_block_exec(ss: Vec<Stmt>, lp: &String) -> (r: Vec<Stmt>)
    ensures
        stmts_model(r@) == skel_block(stmts_model(ss@), lp@),
    decreases ss,
{
    let ghost s0 = ss@;
    let len = ss.len();
    let mut rest = ss;
    let mut out: Vec<Stmt> = Vec::new();
    let mut i: usize = 0;
    while rest.len() > 0
        invariant
            len == s0.len(),
            ss@ == s0,
            i <= len,
            rest@ == s0.skip(i as int),
            out@.len() == i,
            forall|j: int| 0 <= j < i ==> #[trigger] out@[j]@ == skel_stmt(s0[j]@, lp@),
        decreases rest@.len(),
    {
        assert(s0.skip(i as int).len() > 0);
        let st = rest.remove(0);
        assert(s0[i as int] == st);
        assert(decreases_to!(ss => ss@[i as int]));
        out.push(skel_stmt_exec(st, lp));
        assert(rest@ =~= s0.skip(i as int + 1));
        i = i + 1;
    }
    proof {
        let a = stmts_model(out@);
        let b = skel_block(stmts_model(s0), lp@);
        assert forall|j: int| 0 <= j < a.len() implies a[j] == b[j] by {
            assert(a[j] == out@[j]@);
            assert(stmts_model(s0)[j] == s0[j]@);
        }
        assert(a =~= b);
    }
    out
}

fn skel_stmt_exec(s: Stmt, lp: &String) -> (r: Stmt)
    ensures
        r@ == skel_stmt(s@, lp@),
    decreases s,
{
    match s {
        Stmt::Return(e) => {
            if closure_ref(&e).is_some() {
                Stmt::Return(Expr::Name(lp.clone()))
            } else {
                Stmt::Return(e)
            }
        },
        Stmt::If { cond, then_b, elseifs, else_b } => {
            let nt = skel_block_exec(then_b.0, lp);
            let na = skel_arms_exec(elseifs, lp);
            let ne = match else_b {
                Some(b) => Some(Block(skel_block_exec(b.0, lp))),
                None => None,
            };
            Stmt::If { cond, then_b: Block(nt), elseifs: na, else_b: ne }
        },
        Stmt::Do(b) => Stmt::Do(Block(skel_block_exec(b.0, lp))),
        other => other,
    }
}

fn skel_arms_exec(arms: Vec<(Expr, Block)>, lp: &String) -> (r: Vec<(Expr, Block)>)
    ensures
        arms_model(r@) == skel_arms(arms_model(arms@), lp@),
    decreases arms,
{
    let ghost a0 = arms@;
    let ghost am = arms_model(arms@);
    let len = arms.len();
    let mut rest = arms;
    let mut out: Vec<(Expr, Block)> = Vec::new();
    let mut i: usize = 0;
    while rest.len() > 0
        invariant
            len == a0.len(),
            arms@ == a0,
            am == arms_model(a0),
            i <= len,
            rest@ == a0.skip(i as int),
            out@.len() == i,
            forall|j: int| 0 <= j < i ==> #[trigger] arms_model(out@)[j] == skel_arms(am, lp@)[j],
        decreases rest@.len(),
    {
        assert(a0.skip(i as int).len() > 0);
        let (c, b) = rest.remove(0);
        assert(a0[i as int] == (c, b));
        assert(decreases_to!(arms => arms@[i as int]));
        let nb = skel_block_exec(b.0, lp);
        let ghost old_out = out@;
        out.push((c, Block(nb)));
        proof {
            assert forall|j: int| 0 <= j < i + 1 implies #[trigger] arms_model(out@)[j] == skel_arms(am, lp@)[j] by {
                if j < i {
                    assert(arms_model(out@)[j] == arms_model(old_out)[j]);
                }
            }
        }
        assert(rest@ =~= a0.skip(i as int + 1));
        i = i + 1;
    }
    assert(arms_model(out@) =~= skel_arms(am, lp@));
    out
}

fn rw_tail_exec(ss: Vec<Stmt>, n: &SelfName, params: &Vec<String>) -> (r: Vec<Stmt>)
    ensures
        stmts_model(r@) == rw_tail(stmts_model(ss@), n@, strs_model(params@)),
    decreases ss,
{
    let ghost s0 = ss@;
    let len = ss.len();
    if len == 0 {
        return ss;
    }
    let mut out = ss;
    let last = out.pop().unwrap();
    assert(last == s0[len - 1]);
    assert(decreases_to!(ss => s0[len - 1]));
    assert(stmts_model(out@) =~= stmts_model(s0).drop_last());
    let mut tail = rw_tail_last_exec(last, n, params);
    let ghost before = stmts_model(out@);
    let ghost tm = stmts_model(tail@);
    out.append(&mut tail);
    assert(stmts_model(out@) =~= before + tm);
    out
}

fn rw_tail_last_exec(s: Stmt, n: &SelfName, params: &Vec<String>) -> (r: Vec<Stmt>)
    ensures
        stmts_model(r@) == rw_tail_last(s@, n@, strs_model(params@)),
    decreases s,
{
    let ghost sm = s@;
    let mut out: Vec<Stmt> = Vec::new();
    match s {
        Stmt::Return(e) => {
            if crate::loopcore::run_tail_self_args_exec(&e, n, params).is_some() {
                let args = crate::loopcore::take_site_call_args(e, n, params);
                if params.len() > 0 {
                    out.push(Stmt::MultiAssign(crate::tailloop::copy_strings(params), args));
                }
                out.push(Stmt::Goto(crate::text::string_from("continue")));
                assert(stmts_model(out@) =~= site_jump(strs_model(params@), exprs_model(args@)));
            } else {
                out.push(Stmt::Return(e));
                assert(stmts_model(out@) =~= seq![sm]);
            }
        },
        Stmt::If { cond, then_b, elseifs, else_b } => {
            let nt = rw_tail_exec(then_b.0, n, params);
            let na = rw_tail_arms_exec(elseifs, n, params);
            let ne = match else_b {
                Some(b) => Some(Block(rw_tail_exec(b.0, n, params))),
                None => None,
            };
            let st = Stmt::If { cond, then_b: Block(nt), elseifs: na, else_b: ne };
            let ghost stm = st@;
            out.push(st);
            assert(stmts_model(out@) =~= seq![stm]);
        },
        Stmt::Do(b) => {
            let st = Stmt::Do(Block(rw_tail_exec(b.0, n, params)));
            let ghost stm = st@;
            out.push(st);
            assert(stmts_model(out@) =~= seq![stm]);
        },
        other => {
            out.push(other);
            assert(stmts_model(out@) =~= seq![sm]);
        },
    }
    out
}

fn rw_tail_arms_exec(arms: Vec<(Expr, Block)>, n: &SelfName, params: &Vec<String>) -> (r: Vec<(Expr, Block)>)
    ensures
        arms_model(r@) == rw_tail_arms(arms_model(arms@), n@, strs_model(params@)),
    decreases arms,
{
    let ghost a0 = arms@;
    let ghost am = arms_model(arms@);
    let len = arms.len();
    let mut rest = arms;
    let mut out: Vec<(Expr, Block)> = Vec::new();
    let mut i: usize = 0;
    while rest.len() > 0
        invariant
            len == a0.len(),
            arms@ == a0,
            am == arms_model(a0),
            i <= len,
            rest@ == a0.skip(i as int),
            out@.len() == i,
            forall|j: int| 0 <= j < i ==> #[trigger] arms_model(out@)[j] == rw_tail_arms(am, n@, strs_model(params@))[j],
        decreases rest@.len(),
    {
        assert(a0.skip(i as int).len() > 0);
        let (c, b) = rest.remove(0);
        assert(a0[i as int] == (c, b));
        assert(decreases_to!(arms => arms@[i as int]));
        let nb = rw_tail_exec(b.0, n, params);
        let ghost old_out = out@;
        out.push((c, Block(nb)));
        proof {
            assert forall|j: int| 0 <= j < i + 1 implies #[trigger] arms_model(out@)[j] == rw_tail_arms(am, n@, strs_model(params@))[j] by {
                if j < i {
                    assert(arms_model(out@)[j] == arms_model(old_out)[j]);
                }
            }
        }
        assert(rest@ =~= a0.skip(i as int + 1));
        i = i + 1;
    }
    assert(arms_model(out@) =~= rw_tail_arms(am, n@, strs_model(params@)));
    out
}

fn loop_block_exec(ss: Vec<Stmt>, n: &SelfName, params: &Vec<String>) -> (r: Vec<Stmt>)
    ensures
        stmts_model(r@) == loop_block(stmts_model(ss@), n@, strs_model(params@)),
    decreases ss,
{
    let ghost s0 = ss@;
    let ghost pm = strs_model(params@);
    let len = ss.len();
    let mut rest = ss;
    let mut out: Vec<Stmt> = Vec::new();
    let mut i: usize = 0;
    assert(stmts_model(s0.take(0)) =~= Seq::<LStmt>::empty());
    while rest.len() > 0
        invariant
            len == s0.len(),
            ss@ == s0,
            i <= len,
            rest@ == s0.skip(i as int),
            pm == strs_model(params@),
            stmts_model(out@) == loop_block(stmts_model(s0.take(i as int)), n@, pm),
        decreases rest@.len(),
    {
        assert(s0.skip(i as int).len() > 0);
        let st = rest.remove(0);
        assert(s0[i as int] == st);
        assert(decreases_to!(ss => ss@[i as int]));
        let mut piece = loop_stmt_exec(st, n, params);
        let ghost before = stmts_model(out@);
        let ghost pmod = stmts_model(piece@);
        out.append(&mut piece);
        assert(stmts_model(out@) =~= before + pmod);
        assert(stmts_model(s0.take(i as int + 1)).drop_last() =~= stmts_model(s0.take(i as int)));
        assert(stmts_model(s0.take(i as int + 1)).last() == st@);
        assert(loop_block(stmts_model(s0.take(i as int + 1)), n@, pm)
            == loop_block(stmts_model(s0.take(i as int)), n@, pm) + loop_stmt(st@, n@, pm));
        assert(rest@ =~= s0.skip(i as int + 1));
        i = i + 1;
    }
    assert(s0.take(len as int) =~= s0);
    out
}

fn loop_stmt_exec(s: Stmt, n: &SelfName, params: &Vec<String>) -> (r: Vec<Stmt>)
    ensures
        stmts_model(r@) == loop_stmt(s@, n@, strs_model(params@)),
    decreases s,
{
    let ghost sm = s@;
    let mut out: Vec<Stmt> = Vec::new();
    match s {
        Stmt::Return(e) => {
            if closure_ref(&e).is_some() {
                let body = crate::performloop::take_closure_stmts(e);
                return rw_tail_exec(body, n, params);
            } else {
                let ghost em = e@;
                let f = Expr::Name(crate::text::string_from("__mll_run_tail"));
                let ghost fm = f@;
                assert(fm == LExpr::Name("__mll_run_tail"@));
                let mut args: Vec<Expr> = Vec::new();
                args.push(e);
                assert(exprs_model(args@) =~= seq![em]);
                let c = Expr::Call(Box::new(f), args);
                assert(c@ == LExpr::Call(Box::new(fm), seq![em]));
                let st = Stmt::Return(c);
                let ghost stm = st@;
                assert(stm == LStmt::Return(run_tail_of(em)));
                out.push(st);
                assert(stmts_model(out@) =~= seq![stm]);
            }
        },
        Stmt::If { cond, then_b, elseifs, else_b } => {
            let nt = loop_block_exec(then_b.0, n, params);
            let na = loop_arms_exec(elseifs, n, params);
            let ne = match else_b {
                Some(b) => Some(Block(loop_block_exec(b.0, n, params))),
                None => None,
            };
            let st = Stmt::If { cond, then_b: Block(nt), elseifs: na, else_b: ne };
            let ghost stm = st@;
            out.push(st);
            assert(stmts_model(out@) =~= seq![stm]);
        },
        Stmt::Do(b) => {
            let st = Stmt::Do(Block(loop_block_exec(b.0, n, params)));
            let ghost stm = st@;
            out.push(st);
            assert(stmts_model(out@) =~= seq![stm]);
        },
        other => {
            out.push(other);
            assert(stmts_model(out@) =~= seq![sm]);
        },
    }
    out
}

fn loop_arms_exec(arms: Vec<(Expr, Block)>, n: &SelfName, params: &Vec<String>) -> (r: Vec<(Expr, Block)>)
    ensures
        arms_model(r@) == loop_arms(arms_model(arms@), n@, strs_model(params@)),
    decreases arms,
{
    let ghost a0 = arms@;
    let ghost am = arms_model(arms@);
    let len = arms.len();
    let mut rest = arms;
    let mut out: Vec<(Expr, Block)> = Vec::new();
    let mut i: usize = 0;
    while rest.len() > 0
        invariant
            len == a0.len(),
            arms@ == a0,
            am == arms_model(a0),
            i <= len,
            rest@ == a0.skip(i as int),
            out@.len() == i,
            forall|j: int| 0 <= j < i ==> #[trigger] arms_model(out@)[j] == loop_arms(am, n@, strs_model(params@))[j],
        decreases rest@.len(),
    {
        assert(a0.skip(i as int).len() > 0);
        let (c, b) = rest.remove(0);
        assert(a0[i as int] == (c, b));
        assert(decreases_to!(arms => arms@[i as int]));
        let nb = loop_block_exec(b.0, n, params);
        let ghost old_out = out@;
        out.push((c, Block(nb)));
        proof {
            assert forall|j: int| 0 <= j < i + 1 implies #[trigger] arms_model(out@)[j] == loop_arms(am, n@, strs_model(params@))[j] by {
                if j < i {
                    assert(arms_model(out@)[j] == arms_model(old_out)[j]);
                }
            }
        }
        assert(rest@ =~= a0.skip(i as int + 1));
        i = i + 1;
    }
    assert(arms_model(out@) =~= loop_arms(am, n@, strs_model(params@)));
    out
}

// ---------------------------------------------------------------------
// The conversion, computed
// ---------------------------------------------------------------------

fn lp_string(k: usize) -> (r: String)
    ensures
        r@ == lp_cand(k as nat),
{
    let mut s = crate::text::string_from("_lp");
    crate::text::push_repeat(&mut s, "_", k);
    s
}

/// The first `_lp…` candidate that is no token of `text`.
fn lp_name(text: &Vec<char>) -> (r: String)
    ensures
        r@ == lp_of(text@),
{
    let mut k: usize = 0;
    loop
        invariant
            k <= text@.len(),
            forall|j: nat| j < k ==> has_token(text@, #[trigger] lp_cand(j)),
        decreases text@.len() - k,
    {
        let c = lp_string(k);
        let cv = crate::text::chars_of(c.as_str());
        if !crate::tokens::chars_have_token(text, &cv) {
            proof {
                let kk = choose|kk: nat| !has_token(text@, lp_cand(kk)) && forall|j: nat| j < kk ==> has_token(text@, #[trigger] lp_cand(j));
                assert(!has_token(text@, lp_cand(k as nat)) && forall|j: nat| j < k ==> has_token(text@, #[trigger] lp_cand(j)));
                if kk < k {
                    assert(has_token(text@, lp_cand(kk)));
                } else if kk > k {
                    assert(has_token(text@, lp_cand(k as nat)));
                }
                assert(kk == k);
            }
            return c;
        }
        proof {
            reveal_strlit("_lp");
            reveal_strlit("_");
            crate::tailloop::lemma_repeat_len("_"@, k as nat);
            crate::tokens::lemma_token_fits(text@, lp_cand(k as nat));
        }
        k = k + 1;
    }
}

/// The converted body of the module-level definition at `k`, or `None`
/// when a gate fails.
pub fn io_convert_exec(module: &Vec<Stmt>, k: usize, target: &FnTarget, params: &Vec<String>, body: &Vec<Stmt>) -> (r: Option<Vec<Stmt>>)
    requires
        k < module@.len(),
    ensures
        crate::tailloop::opt_stmts(r) == io_convert(stmts_model(module@), k as int, target@, strs_model(params@), stmts_model(body@)),
{
    let n = match crate::tailloop::self_target_exec(target, params) {
        Some(n) => n,
        None => return None,
    };
    if !crate::tailloop::qualifies_exec(module, k, &n) {
        return None;
    }
    if !closure_site_exec(body, &n, params) || !closures_diverge_exec(body) || !rs_block_exec(body)
        || crate::tailloop::blk_stmts_exec(body, params) {
        return None;
    }
    let text = crate::tailloop::used_text_exec(target, params, body);
    let ws = crate::tailloop::fresh_names(&text, params.len());
    let lp = lp_name(&text);
    let empty = crate::demand::NameSet::new();
    assert(empty@ =~= Set::<Seq<char>>::empty());
    let renamed = crate::tailloop::ren_block_exec(body, params, &ws, &empty);
    let looped = loop_block_exec(renamed, &n, params);
    let inner = crate::loopcore::scaffold_exec(&ws, params, looped);
    if params.len() > LOCAL_LIMIT {
        return None;
    }
    let outer_locals = crate::luaopt::count_locals_capped(body, LOCAL_LIMIT + 1);
    if outer_locals + 1 > LOCAL_LIMIT {
        return None;
    }
    let inner_locals = crate::luaopt::count_locals_capped(&inner, LOCAL_LIMIT + 1);
    if inner_locals + 2 * params.len() > LOCAL_LIMIT {
        return None;
    }
    let mut skel = skel_block_exec(crate::luacopy::copy_stmts(body), &lp);
    let ghost im = stmts_model(inner@);
    let ghost lpm = lp@;
    let ghost sk = stmts_model(skel@);
    let mut wv: Vec<Stmt> = Vec::new();
    let w = Stmt::WhileTrue(Block(inner));
    assert(w@ == LStmt::WhileTrue(im));
    wv.push(w);
    assert(stmts_model(wv@) =~= seq![LStmt::WhileTrue(im)]);
    let no_params: Vec<String> = Vec::new();
    assert(strs_model(no_params@) =~= Seq::<Seq<char>>::empty());
    let fb = FuncBody::Block(Block(wv));
    assert(fb@ == LBody::Block(seq![LStmt::WhileTrue(im)]));
    let f = Expr::Func(no_params, fb);
    assert(f@ == LExpr::Func(Seq::empty(), LBody::Block(seq![LStmt::WhileTrue(im)])));
    let mut names: Vec<String> = Vec::new();
    names.push(lp);
    assert(strs_model(names@) =~= seq![lpm]);
    let local = Stmt::Local(names, Some(f));
    let ghost lm = local@;
    assert(lm == LStmt::Local(seq![lpm], Some(LExpr::Func(Seq::empty(), LBody::Block(seq![LStmt::WhileTrue(im)])))));
    let mut out: Vec<Stmt> = Vec::new();
    out.push(local);
    out.append(&mut skel);
    assert(stmts_model(out@) =~= seq![lm] + sk);
    Some(out)
}

} // verus!
