//! The two-level IO self-loop conversion is exactly reversible: from the
//! converted body alone (the loop closure and the skeleton) the original
//! body comes back, with each branch closure in its one canonical spelling.

use vstd::prelude::*;
use crate::lua::{LExpr, LBody, LStmt};
use crate::tailloop::{SName, self_target, ren_expr, ren_block, ren_stmt, ren_arms, next_shadow, ws_of,
    used_text};
use crate::loopcore::{scaffold, peel_scaffold, lemma_peel_build};
use crate::performloop::closure_stmts;
use crate::ioloop::{skel_block, skel_stmt, skel_arms, loop_block, loop_stmt, loop_arms, rw_tail, unrw_tail,
    tail_no_cont, last_no_cont, arms_tail_no_cont, lemma_unrw_rw_tail, lp_of, io_convert};
use crate::rename::{rename_ok, fresh_expr, fresh_block, fresh_stmt, fresh_arms, lemma_unren_block};

verus! {

// ---------------------------------------------------------------------
// The canonical spelling
// ---------------------------------------------------------------------

/// The body with every branch-closure return spelled `return function() … end`
/// (parens peeled, block body).
pub open spec fn canon_block(ss: Seq<LStmt>) -> Seq<LStmt>
    decreases ss,
{
    Seq::new(ss.len(), |i: int| if 0 <= i < ss.len() { canon_stmt(ss[i]) } else { LStmt::ReturnNone })
}

pub open spec fn canon_stmt(s: LStmt) -> LStmt
    decreases s,
{
    match s {
        LStmt::Return(e) => match closure_stmts(e) {
            Some(b) => LStmt::Return(LExpr::Func(Seq::empty(), LBody::Block(b))),
            None => s,
        },
        LStmt::If(c, t, arms, els) => LStmt::If(c, canon_block(t), canon_arms(arms), match els {
            Some(b) => Some(canon_block(b)),
            None => None,
        }),
        LStmt::Do(b) => LStmt::Do(canon_block(b)),
        _ => s,
    }
}

pub open spec fn canon_arms(arms: Seq<(LExpr, Seq<LStmt>)>) -> Seq<(LExpr, Seq<LStmt>)>
    decreases arms,
{
    Seq::new(arms.len(), |i: int| if 0 <= i < arms.len() {
        (arms[i].0, canon_block(arms[i].1))
    } else {
        (LExpr::Name(Seq::empty()), Seq::empty())
    })
}

// ---------------------------------------------------------------------
// The reverse transform
// ---------------------------------------------------------------------

/// Walk a skeleton block and its loop-phase block in lockstep, rebuilding
/// the original block: a `return <lp>` takes the rest of the loop-phase
/// block as the closure body (tail sites restored, names renamed back);
/// every other statement is the skeleton's own.
pub open spec fn lockstep(skel: Seq<LStmt>, lps: Seq<LStmt>, n: SName, ps: Seq<Seq<char>>, ws: Seq<Seq<char>>,
    lp: Seq<char>) -> Option<Seq<LStmt>>
    decreases skel,
{
    if skel.len() == 0 {
        if lps.len() == 0 { Some(skel) } else { None }
    } else if skel[0] == LStmt::Return(LExpr::Name(lp)) {
        if skel.len() == 1 {
            match unrw_tail(lps, n, ps) {
                Some(b) => Some(seq![LStmt::Return(LExpr::Func(Seq::empty(), LBody::Block(ren_block(b, ws, ps, Set::empty()))))]),
                None => None,
            }
        } else {
            None
        }
    } else if lps.len() == 0 {
        None
    } else {
        match (lockstep_stmt(skel[0], lps[0], n, ps, ws, lp), lockstep(skel.drop_first(), lps.drop_first(), n, ps, ws, lp)) {
            (Some(a), Some(r)) => Some(seq![a] + r),
            _ => None,
        }
    }
}

pub open spec fn lockstep_stmt(s: LStmt, l: LStmt, n: SName, ps: Seq<Seq<char>>, ws: Seq<Seq<char>>, lp: Seq<char>) -> Option<LStmt>
    decreases s,
{
    match s {
        LStmt::If(c, t, arms, els) => match l {
            LStmt::If(_, lt, la, lo) => match (lockstep(t, lt, n, ps, ws, lp), lockstep_arms(arms, la, n, ps, ws, lp)) {
                (Some(t2), Some(a2)) => match (els, lo) {
                    (Some(b), Some(lb)) => match lockstep(b, lb, n, ps, ws, lp) {
                        Some(b2) => Some(LStmt::If(c, t2, a2, Some(b2))),
                        None => None,
                    },
                    (None, None) => Some(LStmt::If(c, t2, a2, None)),
                    _ => None,
                },
                _ => None,
            },
            _ => None,
        },
        LStmt::Do(b) => match l {
            LStmt::Do(lb) => match lockstep(b, lb, n, ps, ws, lp) {
                Some(b2) => Some(LStmt::Do(b2)),
                None => None,
            },
            _ => None,
        },
        _ => Some(s),
    }
}

pub open spec fn lockstep_arms(arms: Seq<(LExpr, Seq<LStmt>)>, la: Seq<(LExpr, Seq<LStmt>)>, n: SName, ps: Seq<Seq<char>>,
    ws: Seq<Seq<char>>, lp: Seq<char>) -> Option<Seq<(LExpr, Seq<LStmt>)>>
    decreases arms,
{
    if arms.len() != la.len() {
        None
    } else if arms.len() == 0 {
        Some(arms)
    } else {
        match (lockstep_arms(arms.drop_last(), la.drop_last(), n, ps, ws, lp), lockstep(arms.last().1, la.last().1, n, ps, ws, lp)) {
            (Some(a), Some(b)) => Some(a.push((arms.last().0, b))),
            _ => None,
        }
    }
}

/// Undo the conversion: peel the loop closure `local lp = function() while
/// true do … end end` and its scaffold, then walk the skeleton after it and
/// the loop-phase body in lockstep.
pub open spec fn io_reverse(out: Seq<LStmt>, n: SName, ps: Seq<Seq<char>>, ws: Seq<Seq<char>>, lp: Seq<char>) -> Option<Seq<LStmt>> {
    if out.len() == 0 {
        None
    } else {
        match out[0] {
            LStmt::Local(names, Some(LExpr::Func(fps, LBody::Block(lb)))) => if names == seq![lp] && fps.len() == 0
                && lb.len() == 1 && lb[0] is WhileTrue {
                match peel_scaffold(lb[0]->WhileTrue_0, ws, ps) {
                    Some(rest) => lockstep(out.drop_first(), rest, n, ps, ws, lp),
                    None => None,
                }
            } else {
                None
            },
            _ => None,
        }
    }
}

// ---------------------------------------------------------------------
// What the reversal needs of the body
// ---------------------------------------------------------------------

/// Every branch-closure return stands last in its block, and no block of
/// its closure body already ends with `goto continue`.
pub open spec fn closures_final(ss: Seq<LStmt>) -> bool
    decreases ss,
{
    forall|i: int| 0 <= i < ss.len() ==> closure_final_stmt(#[trigger] ss[i]) && (closure_ret(ss[i]) ==> i == ss.len() - 1)
}

pub open spec fn closure_ret(s: LStmt) -> bool {
    match s {
        LStmt::Return(e) => closure_stmts(e) is Some,
        _ => false,
    }
}

pub open spec fn closure_final_stmt(s: LStmt) -> bool
    decreases s,
{
    match s {
        LStmt::Return(e) => match closure_stmts(e) {
            Some(b) => tail_no_cont(b),
            None => true,
        },
        LStmt::If(_, t, arms, els) => closures_final(t) && closures_final_arms(arms) && match els {
            Some(b) => closures_final(b),
            None => true,
        },
        LStmt::Do(b) => closures_final(b),
        _ => true,
    }
}

pub open spec fn closures_final_arms(arms: Seq<(LExpr, Seq<LStmt>)>) -> bool
    decreases arms,
{
    forall|i: int| 0 <= i < arms.len() ==> closures_final(#[trigger] arms[i].1)
}

// ---------------------------------------------------------------------
// Lemmas
// ---------------------------------------------------------------------

/// The rename keeps a branch closure a branch closure, renaming its body.
proof fn lemma_closure_ren(e: LExpr, ps: Seq<Seq<char>>, ws: Seq<Seq<char>>, sh: Set<Seq<char>>)
    ensures
        closure_stmts(ren_expr(e, ps, ws, sh)) == match closure_stmts(e) {
            Some(b) => Some(ren_block(b, ps, ws, sh)),
            None => None,
        },
    decreases e,
{
    match e {
        LExpr::Paren(b) => {
            lemma_closure_ren(*b, ps, ws, sh);
        },
        LExpr::Func(fps, body) => {
            if fps.len() == 0 {
                assert(sh + fps.to_set() =~= sh);
            }
        },
        _ => {},
    }
}

/// The body of a fresh closure is fresh.
proof fn lemma_fresh_closure(e: LExpr, ws: Seq<Seq<char>>)
    requires
        fresh_expr(e, ws),
        closure_stmts(e) is Some,
    ensures
        fresh_block(closure_stmts(e)->0, ws),
    decreases e,
{
    match e {
        LExpr::Paren(b) => {
            lemma_fresh_closure(*b, ws);
        },
        _ => {},
    }
}

proof fn lemma_loop_block_concat(x: Seq<LStmt>, y: Seq<LStmt>, n: SName, ps: Seq<Seq<char>>)
    ensures
        loop_block(x + y, n, ps) == loop_block(x, n, ps) + loop_block(y, n, ps),
    decreases y.len(),
{
    if y.len() == 0 {
        assert(x + y =~= x);
        assert(loop_block(y, n, ps) =~= Seq::<LStmt>::empty());
        assert(loop_block(x, n, ps) + loop_block(y, n, ps) =~= loop_block(x, n, ps));
    } else {
        let xy = x + y;
        assert(xy.drop_last() =~= x + y.drop_last());
        assert(xy.last() == y.last());
        lemma_loop_block_concat(x, y.drop_last(), n, ps);
        assert(loop_block(xy, n, ps) =~= loop_block(x, n, ps) + loop_block(y, n, ps));
    }
}

/// The last statement of a renamed block is its last statement renamed.
proof fn lemma_ren_block_last(ss: Seq<LStmt>, ps: Seq<Seq<char>>, ws: Seq<Seq<char>>, sh: Set<Seq<char>>)
    ensures
        ren_block(ss, ps, ws, sh).len() == ss.len(),
        ss.len() > 0 ==> exists|sh2: Set<Seq<char>>| ren_block(ss, ps, ws, sh).last() == ren_stmt(ss.last(), ps, ws, sh2),
    decreases ss.len(),
{
    if ss.len() > 0 {
        let rest = ss.drop_first();
        lemma_ren_block_last(rest, ps, ws, next_shadow(ss[0], sh));
        let r = ren_block(ss, ps, ws, sh);
        if rest.len() == 0 {
            assert(r.last() == ren_stmt(ss.last(), ps, ws, sh));
        } else {
            let sh2 = choose|sh2: Set<Seq<char>>| ren_block(rest, ps, ws, next_shadow(ss[0], sh)).last()
                == ren_stmt(rest.last(), ps, ws, sh2);
            assert(rest.last() == ss.last());
            assert(r.last() == ren_stmt(ss.last(), ps, ws, sh2));
        }
    }
}

proof fn lemma_tail_no_cont_ren(ss: Seq<LStmt>, ps: Seq<Seq<char>>, ws: Seq<Seq<char>>, sh: Set<Seq<char>>)
    requires
        tail_no_cont(ss),
    ensures
        tail_no_cont(ren_block(ss, ps, ws, sh)),
    decreases ss, 1nat,
{
    lemma_ren_block_last(ss, ps, ws, sh);
    if ss.len() > 0 {
        let sh2 = choose|sh2: Set<Seq<char>>| ren_block(ss, ps, ws, sh).last() == ren_stmt(ss.last(), ps, ws, sh2);
        lemma_last_no_cont_ren(ss.last(), ps, ws, sh2);
    }
}

proof fn lemma_last_no_cont_ren(s: LStmt, ps: Seq<Seq<char>>, ws: Seq<Seq<char>>, sh: Set<Seq<char>>)
    requires
        s != LStmt::Goto("continue"@),
        last_no_cont(s),
    ensures
        ren_stmt(s, ps, ws, sh) != LStmt::Goto("continue"@),
        last_no_cont(ren_stmt(s, ps, ws, sh)),
    decreases s, 0nat,
{
    match s {
        LStmt::If(c, t, arms, els) => {
            lemma_tail_no_cont_ren(t, ps, ws, sh);
            lemma_arms_no_cont_ren(arms, ps, ws, sh);
            match els {
                Some(b) => {
                    lemma_tail_no_cont_ren(b, ps, ws, sh);
                },
                None => {},
            }
        },
        LStmt::Do(b) => {
            lemma_tail_no_cont_ren(b, ps, ws, sh);
        },
        _ => {},
    }
}

proof fn lemma_arms_no_cont_ren(arms: Seq<(LExpr, Seq<LStmt>)>, ps: Seq<Seq<char>>, ws: Seq<Seq<char>>, sh: Set<Seq<char>>)
    requires
        arms_tail_no_cont(arms),
    ensures
        arms_tail_no_cont(ren_arms(arms, ps, ws, sh)),
    decreases arms, 1nat,
{
    if arms.len() > 0 {
        lemma_arms_no_cont_ren(arms.drop_last(), ps, ws, sh);
        lemma_tail_no_cont_ren(arms.last().1, ps, ws, sh);
        let r = ren_arms(arms, ps, ws, sh);
        assert(r.drop_last() =~= ren_arms(arms.drop_last(), ps, ws, sh));
    }
}

/// The lockstep walk of a skeleton block and its loop-phase block gives the
/// canonically spelled block back.
proof fn lemma_lockstep(body: Seq<LStmt>, n: SName, ps: Seq<Seq<char>>, ws: Seq<Seq<char>>, lp: Seq<char>, sh: Set<Seq<char>>)
    requires
        rename_ok(ps, ws),
        fresh_block(body, ws),
        fresh_block(body, seq![lp]),
        closures_final(body),
    ensures
        lockstep(skel_block(body, lp), loop_block(ren_block(body, ps, ws, sh), n, ps), n, ps, ws, lp) == Some(canon_block(body)),
    decreases body,
{
    let sk = skel_block(body, lp);
    let rb = ren_block(body, ps, ws, sh);
    let lps = loop_block(rb, n, ps);
    if body.len() == 0 {
        assert(sk =~= Seq::<LStmt>::empty());
        assert(canon_block(body) =~= Seq::<LStmt>::empty());
    } else {
        let s0 = body[0];
        let rest = body.drop_first();
        let r0 = ren_stmt(s0, ps, ws, sh);
        let sh1 = next_shadow(s0, sh);
        let rrest = ren_block(rest, ps, ws, sh1);
        assert(rb == seq![r0] + rrest);
        lemma_loop_block_concat(seq![r0], rrest, n, ps);
        let one = seq![r0];
        assert(one.drop_last().len() == 0);
        assert(one.last() == r0);
        assert(loop_block(one, n, ps) == loop_block(one.drop_last(), n, ps) + loop_stmt(r0, n, ps));
        assert(loop_block(one, n, ps) =~= loop_stmt(r0, n, ps));
        assert(lps == loop_stmt(r0, n, ps) + loop_block(rrest, n, ps));
        assert(sk[0] == skel_stmt(s0, lp));
        assert(sk.drop_first() =~= skel_block(rest, lp));
        assert(canon_block(body) =~= seq![canon_stmt(s0)] + canon_block(rest));
        assert(fresh_stmt(s0, ws) && fresh_stmt(s0, seq![lp]) && closure_final_stmt(s0));
        assert(fresh_block(rest, ws) && fresh_block(rest, seq![lp]) && closures_final(rest)) by {
            assert forall|i: int| 0 <= i < rest.len() implies fresh_stmt(#[trigger] rest[i], ws) && fresh_stmt(rest[i], seq![lp])
                && closure_final_stmt(rest[i]) && (closure_ret(rest[i]) ==> i == rest.len() - 1) by {
                assert(rest[i] == body[i + 1]);
            }
        }
        match s0 {
            LStmt::Return(e) => {
                lemma_closure_ren(e, ps, ws, sh);
                match closure_stmts(e) {
                    Some(b) => {
                        assert(closure_ret(body[0]));
                        assert(rest.len() == 0);
                        assert(rrest =~= Seq::<LStmt>::empty());
                        let rbb = ren_block(b, ps, ws, sh);
                        assert(lps =~= rw_tail(rbb, n, ps));
                        lemma_tail_no_cont_ren(b, ps, ws, sh);
                        lemma_unrw_rw_tail(rbb, n, ps);
                        lemma_fresh_closure(e, ws);
                        lemma_unren_block(b, ps, ws, sh, Set::empty());
                        assert(sk.len() == 1);
                        assert(canon_block(body) =~= seq![LStmt::Return(LExpr::Func(Seq::empty(), LBody::Block(b)))]);
                        assert(sk[0] == LStmt::Return(LExpr::Name(lp)));
                        assert(unrw_tail(lps, n, ps) == Some(rbb));
                        assert(ren_block(rbb, ws, ps, Set::empty()) == b);
                    },
                    None => {
                        assert(skel_stmt(s0, lp) == s0);
                        match e {
                            LExpr::Name(x) => {
                                assert(!seq![lp].contains(x));
                                assert(seq![lp][0] == lp);
                            },
                            _ => {},
                        }
                        assert(sk[0] != LStmt::Return(LExpr::Name(lp)));
                        assert(lps.drop_first() =~= loop_block(rrest, n, ps));
                        lemma_lockstep(rest, n, ps, ws, lp, sh1);
                        assert(lps.len() > 0);
                        assert(lockstep_stmt(sk[0], lps[0], n, ps, ws, lp) == Some(s0));
                        assert(canon_stmt(s0) == s0);
                    },
                }
            },
            LStmt::If(c, t, arms, els) => {
                lemma_lockstep(t, n, ps, ws, lp, sh);
                lemma_lockstep_arms(arms, n, ps, ws, lp, sh);
                match els {
                    Some(b) => {
                        lemma_lockstep(b, n, ps, ws, lp, sh);
                    },
                    None => {},
                }
                assert(lps.drop_first() =~= loop_block(rrest, n, ps));
                lemma_lockstep(rest, n, ps, ws, lp, sh1);
                assert(lps[0] == loop_stmt(r0, n, ps)[0]);
                assert(lockstep_stmt(sk[0], lps[0], n, ps, ws, lp) == Some(canon_stmt(s0)));
            },
            LStmt::Do(b) => {
                lemma_lockstep(b, n, ps, ws, lp, sh);
                assert(lps.drop_first() =~= loop_block(rrest, n, ps));
                lemma_lockstep(rest, n, ps, ws, lp, sh1);
                assert(lps[0] == loop_stmt(r0, n, ps)[0]);
                assert(lockstep_stmt(sk[0], lps[0], n, ps, ws, lp) == Some(canon_stmt(s0)));
            },
            _ => {
                assert(skel_stmt(s0, lp) == s0);
                assert(loop_stmt(r0, n, ps) == seq![r0]);
                assert(lps.drop_first() =~= loop_block(rrest, n, ps));
                lemma_lockstep(rest, n, ps, ws, lp, sh1);
                assert(lps[0] == r0);
                assert(lockstep_stmt(sk[0], lps[0], n, ps, ws, lp) == Some(s0));
                assert(canon_stmt(s0) == s0);
            },
        }
    }
}

proof fn lemma_lockstep_arms(arms: Seq<(LExpr, Seq<LStmt>)>, n: SName, ps: Seq<Seq<char>>, ws: Seq<Seq<char>>, lp: Seq<char>,
    sh: Set<Seq<char>>)
    requires
        rename_ok(ps, ws),
        fresh_arms(arms, ws),
        fresh_arms(arms, seq![lp]),
        closures_final_arms(arms),
    ensures
        lockstep_arms(skel_arms(arms, lp), loop_arms(ren_arms(arms, ps, ws, sh), n, ps), n, ps, ws, lp) == Some(canon_arms(arms)),
    decreases arms,
{
    let sk = skel_arms(arms, lp);
    let la = loop_arms(ren_arms(arms, ps, ws, sh), n, ps);
    if arms.len() == 0 {
        assert(sk =~= arms);
        assert(canon_arms(arms) =~= arms);
    } else {
        let init = arms.drop_last();
        assert(fresh_arms(init, ws) && fresh_arms(init, seq![lp]) && closures_final_arms(init)) by {
            assert forall|i: int| 0 <= i < init.len() implies fresh_expr((#[trigger] init[i]).0, ws) && fresh_block(init[i].1, ws)
                && fresh_expr(init[i].0, seq![lp]) && fresh_block(init[i].1, seq![lp]) && closures_final(init[i].1) by {
                assert(init[i] == arms[i]);
            }
        }
        let l = arms.last();
        assert(l == arms[arms.len() - 1]);
        assert(fresh_block(l.1, ws) && fresh_block(l.1, seq![lp]) && closures_final(l.1));
        lemma_lockstep_arms(init, n, ps, ws, lp, sh);
        lemma_lockstep(l.1, n, ps, ws, lp, sh);
        assert(sk.drop_last() =~= skel_arms(init, lp));
        assert(ren_arms(arms, ps, ws, sh).drop_last() =~= ren_arms(init, ps, ws, sh));
        assert(la.drop_last() =~= loop_arms(ren_arms(init, ps, ws, sh), n, ps));
        assert(sk.last() == (l.0, skel_block(l.1, lp)));
        assert(la.last() == (ren_expr(l.0, ps, ws, sh), loop_block(ren_block(l.1, ps, ws, sh), n, ps)));
        assert(canon_arms(arms) =~= canon_arms(init).push((l.0, canon_block(l.1))));
    }
}

/// The conversion is exactly reversible: un-converting the converted body
/// of a qualifying function (peeling the loop closure and its scaffold,
/// then walking the skeleton and the loop phase in lockstep) gives the
/// original body back, each branch closure in its canonical spelling. The
/// copy names are distinct and apart from the parameters by construction;
/// the law takes the copy names and the loop-closure name to be fresh for
/// every name the body reads, assigns or binds, and the body to be valid Lua
/// (a branch-closure return is last in its block).
pub proof fn lemma_io_convert_reversible(ss: Seq<LStmt>, k: int, t: crate::lua::LTarget, ps: Seq<Seq<char>>, body: Seq<LStmt>)
    requires
        io_convert(ss, k, t, ps, body) is Some,
        fresh_block(body, ws_of(used_text(t, ps, body), ps.len())),
        fresh_block(body, seq![lp_of(used_text(t, ps, body))]),
        closures_final(body),
        ({
            let lb = loop_block(ren_block(body, ps, ws_of(used_text(t, ps, body), ps.len()), Set::empty()),
                self_target(t, ps)->0, ps);
            lb.len() == 0 || lb.last() != LStmt::Do(seq![LStmt::ReturnNone])
        }),
    ensures
        io_reverse(io_convert(ss, k, t, ps, body)->0, self_target(t, ps)->0, ps, ws_of(used_text(t, ps, body), ps.len()),
            lp_of(used_text(t, ps, body))) == Some(canon_block(body)),
{
    let text = used_text(t, ps, body);
    let ws = ws_of(text, ps.len());
    let lp = lp_of(text);
    let n = self_target(t, ps)->0;
    let lb = loop_block(ren_block(body, ps, ws, Set::empty()), n, ps);
    let inner = scaffold(ws, ps, lb);
    let out = io_convert(ss, k, t, ps, body)->0;
    crate::tailloop::lemma_ws_distinct(text, ps.len());
    assert(self_target(t, ps) is Some);
    crate::tailloop::lemma_copies_apart(t, ps, body);
    assert(rename_ok(ps, ws));
    let head = LStmt::Local(seq![lp], Some(LExpr::Func(Seq::empty(), LBody::Block(seq![LStmt::WhileTrue(inner)]))));
    assert(out == seq![head] + skel_block(body, lp));
    assert(out[0] == head);
    assert(out.drop_first() =~= skel_block(body, lp));
    lemma_peel_build(ws, ps, lb);
    lemma_lockstep(body, n, ps, ws, lp, Set::empty());
}

} // verus!
