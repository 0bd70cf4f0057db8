//! The loop step of the direct-perform recursion conversion is exactly
//! reversible: from the converted loop alone the normalized body comes back.

use vstd::prelude::*;
use crate::lua::{LExpr, LStmt, LTarget};
use crate::tailloop::{SName, self_target, ren_block, ren_stmt, ren_arms, next_shadow, ws_of, used_text};
use crate::loopcore::{rw_sites, unrw_sites, no_cont, all_no_cont, stmt_no_cont, arms_no_cont, scaffold, peel_scaffold,
    lemma_peel_build, lemma_unrewrite_rewrite};
use crate::performloop::{norm_block, perform_convert};
use crate::rename::{rename_ok, fresh_block, lemma_unren_block};

verus! {

/// Undo the loop step: peel `while true do … end` and its scaffold, restore
/// the runner sites, and rename the copies back to the parameters.
pub open spec fn perform_reverse(out: Seq<LStmt>, n: SName, ps: Seq<Seq<char>>, ws: Seq<Seq<char>>) -> Option<Seq<LStmt>> {
    if out.len() == 1 && out[0] is WhileTrue {
        match peel_scaffold(out[0]->WhileTrue_0, ws, ps) {
            Some(b) => match unrw_sites(b, n, ps) {
                Some(r) => Some(ren_block(r, ws, ps, Set::empty())),
                None => None,
            },
            None => None,
        }
    } else {
        None
    }
}

/// Every statement of a renamed block is that statement renamed.
proof fn lemma_ren_block_at(ss: Seq<LStmt>, ps: Seq<Seq<char>>, ws: Seq<Seq<char>>, sh: Set<Seq<char>>, i: int)
    requires
        0 <= i < ss.len(),
    ensures
        ren_block(ss, ps, ws, sh).len() == ss.len(),
        exists|sh2: Set<Seq<char>>| ren_block(ss, ps, ws, sh)[i] == #[trigger] ren_stmt(ss[i], ps, ws, sh2),
    decreases i,
{
    let rest = ss.drop_first();
    if i == 0 {
        lemma_ren_len(rest, ps, ws, next_shadow(ss[0], sh));
        assert(ren_block(ss, ps, ws, sh)[0] == ren_stmt(ss[0], ps, ws, sh));
    } else {
        lemma_ren_block_at(rest, ps, ws, next_shadow(ss[0], sh), i - 1);
        let sh2 = choose|sh2: Set<Seq<char>>| ren_block(rest, ps, ws, next_shadow(ss[0], sh))[i - 1] == #[trigger] ren_stmt(rest[i - 1], ps, ws, sh2);
        assert(rest[i - 1] == ss[i]);
        assert(ren_block(ss, ps, ws, sh)[i] == ren_stmt(ss[i], ps, ws, sh2));
    }
}

proof fn lemma_ren_len(ss: Seq<LStmt>, ps: Seq<Seq<char>>, ws: Seq<Seq<char>>, sh: Set<Seq<char>>)
    ensures
        ren_block(ss, ps, ws, sh).len() == ss.len(),
    decreases ss.len(),
{
    if ss.len() > 0 {
        lemma_ren_len(ss.drop_first(), ps, ws, next_shadow(ss[0], sh));
    }
}

/// `all_no_cont` holds of a block exactly when it holds of each statement.
proof fn lemma_all_no_cont(ss: Seq<LStmt>)
    ensures
        all_no_cont(ss) <==> forall|i: int| 0 <= i < ss.len() ==> stmt_no_cont(#[trigger] ss[i]),
    decreases ss.len(),
{
    if ss.len() > 0 {
        lemma_all_no_cont(ss.drop_last());
        if forall|i: int| 0 <= i < ss.len() ==> stmt_no_cont(#[trigger] ss[i]) {
            assert forall|i: int| 0 <= i < ss.drop_last().len() implies stmt_no_cont(#[trigger] ss.drop_last()[i]) by {
                assert(ss.drop_last()[i] == ss[i]);
            }
            assert(stmt_no_cont(ss[ss.len() - 1]));
        }
        if all_no_cont(ss) {
            assert forall|i: int| 0 <= i < ss.len() implies stmt_no_cont(#[trigger] ss[i]) by {
                if i < ss.len() - 1 {
                    assert(ss.drop_last()[i] == ss[i]);
                }
            }
        }
    }
}

proof fn lemma_no_cont_ren(ss: Seq<LStmt>, ps: Seq<Seq<char>>, ws: Seq<Seq<char>>, sh: Set<Seq<char>>)
    requires
        no_cont(ss),
    ensures
        no_cont(ren_block(ss, ps, ws, sh)),
    decreases ss, 1nat,
{
    let r = ren_block(ss, ps, ws, sh);
    lemma_ren_len(ss, ps, ws, sh);
    lemma_all_no_cont(ss);
    lemma_all_no_cont(r);
    assert forall|i: int| 0 <= i < r.len() implies stmt_no_cont(#[trigger] r[i]) && (i == r.len() - 1 ==> r[i] != LStmt::Goto("continue"@)) by {
        lemma_ren_block_at(ss, ps, ws, sh, i);
        let sh2 = choose|sh2: Set<Seq<char>>| r[i] == #[trigger] ren_stmt(ss[i], ps, ws, sh2);
        lemma_stmt_no_cont_ren(ss[i], ps, ws, sh2);
    }
}

proof fn lemma_stmt_no_cont_ren(s: LStmt, ps: Seq<Seq<char>>, ws: Seq<Seq<char>>, sh: Set<Seq<char>>)
    requires
        stmt_no_cont(s),
    ensures
        stmt_no_cont(ren_stmt(s, ps, ws, sh)),
        s != LStmt::Goto("continue"@) ==> ren_stmt(s, ps, ws, sh) != LStmt::Goto("continue"@),
    decreases s, 0nat,
{
    match s {
        LStmt::If(c, t, arms, els) => {
            lemma_no_cont_ren(t, ps, ws, sh);
            lemma_arms_no_cont_ren(arms, ps, ws, sh);
            match els {
                Some(b) => {
                    lemma_no_cont_ren(b, ps, ws, sh);
                },
                None => {},
            }
        },
        LStmt::Do(b) => {
            lemma_no_cont_ren(b, ps, ws, sh);
        },
        _ => {},
    }
}

proof fn lemma_arms_no_cont_ren(arms: Seq<(LExpr, Seq<LStmt>)>, ps: Seq<Seq<char>>, ws: Seq<Seq<char>>, sh: Set<Seq<char>>)
    requires
        arms_no_cont(arms),
    ensures
        arms_no_cont(ren_arms(arms, ps, ws, sh)),
    decreases arms, 1nat,
{
    if arms.len() > 0 {
        lemma_arms_no_cont_ren(arms.drop_last(), ps, ws, sh);
        lemma_no_cont_ren(arms.last().1, ps, ws, sh);
        let r = ren_arms(arms, ps, ws, sh);
        assert(r.drop_last() =~= ren_arms(arms.drop_last(), ps, ws, sh));
    }
}

/// The loop step is exactly reversible: un-converting the loop of a
/// qualifying function gives the normalized body back. The copy names are
/// distinct and apart from the parameters by construction; the law takes
/// them to be fresh for every name the normalized body reads, assigns or
/// binds, and no block of it to end already with `goto continue`.
pub proof fn lemma_perform_convert_reversible(ss: Seq<LStmt>, k: int, t: LTarget, ps: Seq<Seq<char>>, body: Seq<LStmt>)
    requires
        perform_convert(ss, k, t, ps, body) is Some,
        fresh_block(norm_block(body, true, false)->0, ws_of(used_text(t, ps, norm_block(body, true, false)->0), ps.len())),
        no_cont(norm_block(body, true, false)->0),
        ({
            let nb = norm_block(body, true, false)->0;
            let lb = rw_sites(ren_block(nb, ps, ws_of(used_text(t, ps, nb), ps.len()), Set::empty()), self_target(t, ps)->0, ps);
            lb.len() == 0 || lb.last() != LStmt::Do(seq![LStmt::ReturnNone])
        }),
    ensures
        perform_reverse(perform_convert(ss, k, t, ps, body)->0, self_target(t, ps)->0, ps,
            ws_of(used_text(t, ps, norm_block(body, true, false)->0), ps.len())) == Some(norm_block(body, true, false)->0),
{
    let nb = norm_block(body, true, false)->0;
    let n = self_target(t, ps)->0;
    let ws = ws_of(used_text(t, ps, nb), ps.len());
    let rb = ren_block(nb, ps, ws, Set::empty());
    let lb = rw_sites(rb, n, ps);
    let inner = scaffold(ws, ps, lb);
    crate::tailloop::lemma_ws_distinct(used_text(t, ps, nb), ps.len());
    assert(self_target(t, ps) is Some);
    crate::tailloop::lemma_copies_apart(t, ps, nb);
    assert(rename_ok(ps, ws));
    assert(perform_convert(ss, k, t, ps, body)->0 == seq![LStmt::WhileTrue(inner)]);
    lemma_peel_build(ws, ps, lb);
    lemma_no_cont_ren(nb, ps, ws, Set::empty());
    lemma_unrewrite_rewrite(rb, n, ps);
    lemma_unren_block(nb, ps, ws, Set::empty(), Set::empty());
}

} // verus!
