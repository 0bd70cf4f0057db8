//! The scoped parameter rename of the loop conversions is undone by renaming
//! back, whenever the new names are fresh for the renamed tree.

use vstd::prelude::*;
use crate::lua::{LExpr, LItem, LBody, LStmt};
use crate::tailloop::{distinct, pos_of, ren_name, ren_names, ren_expr, ren_exprs, ren_items, ren_block,
    ren_stmt, ren_arms, ren_entries, next_shadow};

verus! {

/// `ps[i] → ws[i]` is a one-to-one rename onto names outside `ps`.
pub open spec fn rename_ok(ps: Seq<Seq<char>>, ws: Seq<Seq<char>>) -> bool {
    &&& ps.len() == ws.len()
    &&& distinct(ps)
    &&& distinct(ws)
    &&& forall|i: int, j: int| 0 <= i < ps.len() && 0 <= j < ws.len() ==> ps[i] != ws[j]
}

/// No name of `ps` is a name of `ws`.
pub open spec fn names_apart(ps: Seq<Seq<char>>, ws: Seq<Seq<char>>) -> bool {
    forall|i: int, j: int| 0 <= i < ps.len() && 0 <= j < ws.len() ==> ps[i] != ws[j]
}

/// No name of `ws` is in the set.
pub open spec fn avoids(sh: Set<Seq<char>>, ws: Seq<Seq<char>>) -> bool {
    forall|i: int| 0 <= i < ws.len() ==> !sh.contains(#[trigger] ws[i])
}

/// No name of `ws` occurs among `ls`.
pub open spec fn fresh_names(ls: Seq<Seq<char>>, ws: Seq<Seq<char>>) -> bool {
    forall|i: int| 0 <= i < ls.len() ==> !ws.contains(#[trigger] ls[i])
}

/// No name of `ws` is read, assigned or bound in the expression.
pub open spec fn fresh_expr(e: LExpr, ws: Seq<Seq<char>>) -> bool
    decreases e,
{
    match e {
        LExpr::Name(s) => !ws.contains(s),
        LExpr::Paren(b) => fresh_expr(*b, ws),
        LExpr::Neg(b) => fresh_expr(*b, ws),
        LExpr::Index(b, _) => fresh_expr(*b, ws),
        LExpr::Call(f, args) => fresh_expr(*f, ws) && fresh_exprs(args, ws),
        LExpr::Method(r, _, args) => fresh_expr(*r, ws) && fresh_exprs(args, ws),
        LExpr::Binop(_, l, r) => fresh_expr(*l, ws) && fresh_expr(*r, ws),
        LExpr::Table(items) => fresh_items(items, ws),
        LExpr::TableSpaced(items) => fresh_items(items, ws),
        LExpr::Func(fps, body) => fresh_names(fps, ws) && match body {
            LBody::Inline(ss) => fresh_block(ss, ws),
            LBody::Block(ss) => fresh_block(ss, ws),
        },
        _ => true,
    }
}

pub open spec fn fresh_exprs(s: Seq<LExpr>, ws: Seq<Seq<char>>) -> bool
    decreases s,
{
    forall|i: int| 0 <= i < s.len() ==> fresh_expr(#[trigger] s[i], ws)
}

pub open spec fn fresh_items(s: Seq<LItem>, ws: Seq<Seq<char>>) -> bool
    decreases s,
{
    forall|i: int| 0 <= i < s.len() ==> match #[trigger] s[i] {
        LItem::Pos(e) => fresh_expr(e, ws),
        LItem::KV(_, e) => fresh_expr(e, ws),
    }
}

pub open spec fn fresh_block(ss: Seq<LStmt>, ws: Seq<Seq<char>>) -> bool
    decreases ss,
{
    forall|i: int| 0 <= i < ss.len() ==> fresh_stmt(#[trigger] ss[i], ws)
}

pub open spec fn fresh_stmt(s: LStmt, ws: Seq<Seq<char>>) -> bool
    decreases s,
{
    match s {
        LStmt::Local(ns, init) => fresh_names(ns, ws) && match init {
            Some(e) => fresh_expr(e, ws),
            None => true,
        },
        LStmt::Assign(l, e) => !ws.contains(l) && fresh_expr(e, ws),
        LStmt::MultiAssign(ls, es) => fresh_names(ls, ws) && fresh_exprs(es, ws),
        LStmt::AssignIf(l, c, t, e) => !ws.contains(l) && fresh_expr(c, ws) && fresh_expr(t, ws) && fresh_expr(e, ws),
        LStmt::Function(_, _, b) => fresh_block(b, ws),
        LStmt::Return(e) => fresh_expr(e, ws),
        LStmt::Expr(e) => fresh_expr(e, ws),
        LStmt::If(c, t, arms, els) => fresh_expr(c, ws) && fresh_block(t, ws) && fresh_arms(arms, ws) && match els {
            Some(b) => fresh_block(b, ws),
            None => true,
        },
        LStmt::Do(b) => fresh_block(b, ws),
        LStmt::WhileTrue(b) => fresh_block(b, ws),
        LStmt::ReturnTable(es) => fresh_entries(es, ws),
        _ => true,
    }
}

pub open spec fn fresh_arms(s: Seq<(LExpr, Seq<LStmt>)>, ws: Seq<Seq<char>>) -> bool
    decreases s,
{
    forall|i: int| 0 <= i < s.len() ==> fresh_expr((#[trigger] s[i]).0, ws) && fresh_block(s[i].1, ws)
}

pub open spec fn fresh_entries(s: Seq<(Seq<char>, LExpr)>, ws: Seq<Seq<char>>) -> bool
    decreases s,
{
    forall|i: int| 0 <= i < s.len() ==> fresh_expr((#[trigger] s[i]).1, ws)
}

proof fn lemma_pos_in(ps: Seq<Seq<char>>, s: Seq<char>)
    requires
        ps.contains(s),
    ensures
        pos_of(ps, s) < ps.len(),
        ps[pos_of(ps, s) as int] == s,
    decreases ps.len(),
{
    if ps[0] != s {
        let j = choose|j: int| 0 <= j < ps.len() && ps[j] == s;
        assert(ps.drop_first()[j - 1] == s);
        lemma_pos_in(ps.drop_first(), s);
    }
}

proof fn lemma_pos_at(ps: Seq<Seq<char>>, i: int)
    requires
        0 <= i < ps.len(),
        distinct(ps),
    ensures
        pos_of(ps, ps[i]) == i,
    decreases i,
{
    if i > 0 {
        assert(ps[0] != ps[i]);
        let t = ps.drop_first();
        assert(distinct(t)) by {
            assert forall|a: int, b: int| 0 <= a < b < t.len() implies t[a] != t[b] by {
                assert(t[a] == ps[a + 1] && t[b] == ps[b + 1]);
            }
        }
        lemma_pos_at(t, i - 1);
    }
}

/// Renaming a name forth and back gives it back.
pub proof fn lemma_unren_name(s: Seq<char>, ps: Seq<Seq<char>>, ws: Seq<Seq<char>>, sh: Set<Seq<char>>, sh2: Set<Seq<char>>)
    requires
        rename_ok(ps, ws),
        avoids(sh2, ws),
        !ws.contains(s),
    ensures
        ren_name(ren_name(s, ps, ws, sh), ws, ps, sh2) == s,
{
    if !sh.contains(s) && ps.contains(s) {
        lemma_pos_in(ps, s);
        let i = pos_of(ps, s) as int;
        let w = ws[i];
        assert(ws.contains(w));
        assert(!sh2.contains(w));
        lemma_pos_at(ws, i);
    }
}

proof fn lemma_unren_names(ls: Seq<Seq<char>>, ps: Seq<Seq<char>>, ws: Seq<Seq<char>>, sh: Set<Seq<char>>, sh2: Set<Seq<char>>)
    requires
        rename_ok(ps, ws),
        avoids(sh2, ws),
        fresh_names(ls, ws),
    ensures
        ren_names(ren_names(ls, ps, ws, sh), ws, ps, sh2) == ls,
{
    let r = ren_names(ls, ps, ws, sh);
    assert forall|i: int| 0 <= i < ls.len() implies ren_name(r[i], ws, ps, sh2) == ls[i] by {
        lemma_unren_name(ls[i], ps, ws, sh, sh2);
    }
    assert(ren_names(r, ws, ps, sh2) =~= ls);
}

proof fn lemma_avoids_union(sh: Set<Seq<char>>, ns: Seq<Seq<char>>, ws: Seq<Seq<char>>)
    requires
        avoids(sh, ws),
        fresh_names(ns, ws),
    ensures
        avoids(sh + ns.to_set(), ws),
{
    assert forall|i: int| 0 <= i < ws.len() implies !(sh + ns.to_set()).contains(#[trigger] ws[i]) by {
        if ns.to_set().contains(ws[i]) {
            let j = choose|j: int| 0 <= j < ns.len() && ns[j] == ws[i];
            assert(!ws.contains(ns[j]));
        }
    }
}

/// Renaming an expression forth and back gives it back.
pub proof fn lemma_unren_expr(e: LExpr, ps: Seq<Seq<char>>, ws: Seq<Seq<char>>, sh: Set<Seq<char>>, sh2: Set<Seq<char>>)
    requires
        rename_ok(ps, ws),
        avoids(sh2, ws),
        fresh_expr(e, ws),
    ensures
        ren_expr(ren_expr(e, ps, ws, sh), ws, ps, sh2) == e,
    decreases e,
{
    match e {
        LExpr::Name(s) => {
            lemma_unren_name(s, ps, ws, sh, sh2);
        },
        LExpr::Paren(b) => {
            lemma_unren_expr(*b, ps, ws, sh, sh2);
        },
        LExpr::Neg(b) => {
            lemma_unren_expr(*b, ps, ws, sh, sh2);
        },
        LExpr::Index(b, _) => {
            lemma_unren_expr(*b, ps, ws, sh, sh2);
        },
        LExpr::Call(f, args) => {
            lemma_unren_expr(*f, ps, ws, sh, sh2);
            lemma_unren_exprs(args, ps, ws, sh, sh2);
        },
        LExpr::Method(r, _, args) => {
            lemma_unren_expr(*r, ps, ws, sh, sh2);
            lemma_unren_exprs(args, ps, ws, sh, sh2);
        },
        LExpr::Binop(_, l, r) => {
            lemma_unren_expr(*l, ps, ws, sh, sh2);
            lemma_unren_expr(*r, ps, ws, sh, sh2);
        },
        LExpr::Table(items) => {
            lemma_unren_items(items, ps, ws, sh, sh2);
        },
        LExpr::TableSpaced(items) => {
            lemma_unren_items(items, ps, ws, sh, sh2);
        },
        LExpr::Func(fps, body) => {
            lemma_avoids_union(sh2, fps, ws);
            match body {
                LBody::Inline(ss) => {
                    lemma_unren_block(ss, ps, ws, sh + fps.to_set(), sh2 + fps.to_set());
                },
                LBody::Block(ss) => {
                    lemma_unren_block(ss, ps, ws, sh + fps.to_set(), sh2 + fps.to_set());
                },
            }
        },
        _ => {},
    }
}

proof fn lemma_unren_exprs(s: Seq<LExpr>, ps: Seq<Seq<char>>, ws: Seq<Seq<char>>, sh: Set<Seq<char>>, sh2: Set<Seq<char>>)
    requires
        rename_ok(ps, ws),
        avoids(sh2, ws),
        fresh_exprs(s, ws),
    ensures
        ren_exprs(ren_exprs(s, ps, ws, sh), ws, ps, sh2) == s,
    decreases s,
{
    let r = ren_exprs(s, ps, ws, sh);
    assert forall|i: int| 0 <= i < s.len() implies ren_expr(r[i], ws, ps, sh2) == s[i] by {
        assert(fresh_expr(s[i], ws));
        lemma_unren_expr(s[i], ps, ws, sh, sh2);
    }
    assert(ren_exprs(r, ws, ps, sh2) =~= s);
}

proof fn lemma_unren_items(s: Seq<LItem>, ps: Seq<Seq<char>>, ws: Seq<Seq<char>>, sh: Set<Seq<char>>, sh2: Set<Seq<char>>)
    requires
        rename_ok(ps, ws),
        avoids(sh2, ws),
        fresh_items(s, ws),
    ensures
        ren_items(ren_items(s, ps, ws, sh), ws, ps, sh2) == s,
    decreases s,
{
    let r = ren_items(s, ps, ws, sh);
    assert forall|i: int| 0 <= i < s.len() implies (match r[i] {
        LItem::Pos(e) => LItem::Pos(ren_expr(e, ws, ps, sh2)),
        LItem::KV(k, e) => LItem::KV(k, ren_expr(e, ws, ps, sh2)),
    }) == s[i] by {
        match s[i] {
            LItem::Pos(e) => {
                lemma_unren_expr(e, ps, ws, sh, sh2);
            },
            LItem::KV(_, e) => {
                lemma_unren_expr(e, ps, ws, sh, sh2);
            },
        }
    }
    assert(ren_items(r, ws, ps, sh2) =~= s);
}

/// Renaming a block forth and back gives it back.
pub proof fn lemma_unren_block(ss: Seq<LStmt>, ps: Seq<Seq<char>>, ws: Seq<Seq<char>>, sh: Set<Seq<char>>, sh2: Set<Seq<char>>)
    requires
        rename_ok(ps, ws),
        avoids(sh2, ws),
        fresh_block(ss, ws),
    ensures
        ren_block(ren_block(ss, ps, ws, sh), ws, ps, sh2) == ss,
    decreases ss,
{
    if ss.len() > 0 {
        let s0 = ss[0];
        let rest = ss.drop_first();
        let r0 = ren_stmt(s0, ps, ws, sh);
        let rr = ren_block(rest, ps, ws, next_shadow(s0, sh));
        let r = ren_block(ss, ps, ws, sh);
        assert(fresh_stmt(s0, ws));
        assert(fresh_block(rest, ws)) by {
            assert forall|i: int| 0 <= i < rest.len() implies fresh_stmt(#[trigger] rest[i], ws) by {
                assert(rest[i] == ss[i + 1]);
            }
        }
        assert(r == seq![r0] + rr);
        assert(r[0] == r0);
        assert(r.drop_first() =~= rr);
        lemma_unren_stmt(s0, ps, ws, sh, sh2);
        let sh3 = next_shadow(r0, sh2);
        assert(avoids(sh3, ws)) by {
            match s0 {
                LStmt::Local(ns, _) => {
                    lemma_avoids_union(sh2, ns, ws);
                },
                _ => {},
            }
        }
        lemma_unren_block(rest, ps, ws, next_shadow(s0, sh), sh3);
        assert(ren_block(r, ws, ps, sh2) =~= seq![s0] + rest);
        assert(seq![s0] + rest =~= ss);
    }
}

proof fn lemma_unren_stmt(s: LStmt, ps: Seq<Seq<char>>, ws: Seq<Seq<char>>, sh: Set<Seq<char>>, sh2: Set<Seq<char>>)
    requires
        rename_ok(ps, ws),
        avoids(sh2, ws),
        fresh_stmt(s, ws),
    ensures
        ren_stmt(ren_stmt(s, ps, ws, sh), ws, ps, sh2) == s,
    decreases s,
{
    match s {
        LStmt::Local(ns, init) => {
            match init {
                Some(e) => {
                    lemma_unren_expr(e, ps, ws, sh, sh2);
                },
                None => {},
            }
        },
        LStmt::Assign(l, e) => {
            lemma_unren_name(l, ps, ws, sh, sh2);
            lemma_unren_expr(e, ps, ws, sh, sh2);
        },
        LStmt::MultiAssign(ls, es) => {
            lemma_unren_names(ls, ps, ws, sh, sh2);
            lemma_unren_exprs(es, ps, ws, sh, sh2);
        },
        LStmt::AssignIf(l, c, t, e) => {
            lemma_unren_name(l, ps, ws, sh, sh2);
            lemma_unren_expr(c, ps, ws, sh, sh2);
            lemma_unren_expr(t, ps, ws, sh, sh2);
            lemma_unren_expr(e, ps, ws, sh, sh2);
        },
        LStmt::Function(_, _, b) => {
            lemma_unren_block(b, ps, ws, sh, sh2);
        },
        LStmt::Return(e) => {
            lemma_unren_expr(e, ps, ws, sh, sh2);
        },
        LStmt::Expr(e) => {
            lemma_unren_expr(e, ps, ws, sh, sh2);
        },
        LStmt::If(c, t, arms, els) => {
            lemma_unren_expr(c, ps, ws, sh, sh2);
            lemma_unren_block(t, ps, ws, sh, sh2);
            lemma_unren_arms(arms, ps, ws, sh, sh2);
            match els {
                Some(b) => {
                    lemma_unren_block(b, ps, ws, sh, sh2);
                },
                None => {},
            }
        },
        LStmt::Do(b) => {
            lemma_unren_block(b, ps, ws, sh, sh2);
        },
        LStmt::WhileTrue(b) => {
            lemma_unren_block(b, ps, ws, sh, sh2);
        },
        LStmt::ReturnTable(es) => {
            lemma_unren_entries(es, ps, ws, sh, sh2);
        },
        _ => {},
    }
}

proof fn lemma_unren_arms(s: Seq<(LExpr, Seq<LStmt>)>, ps: Seq<Seq<char>>, ws: Seq<Seq<char>>, sh: Set<Seq<char>>, sh2: Set<Seq<char>>)
    requires
        rename_ok(ps, ws),
        avoids(sh2, ws),
        fresh_arms(s, ws),
    ensures
        ren_arms(ren_arms(s, ps, ws, sh), ws, ps, sh2) == s,
    decreases s,
{
    let r = ren_arms(s, ps, ws, sh);
    assert forall|i: int| 0 <= i < s.len() implies (ren_expr(r[i].0, ws, ps, sh2), ren_block(r[i].1, ws, ps, sh2))
        == s[i] by {
        assert(fresh_expr(s[i].0, ws) && fresh_block(s[i].1, ws));
        lemma_unren_expr(s[i].0, ps, ws, sh, sh2);
        lemma_unren_block(s[i].1, ps, ws, sh, sh2);
    }
    assert(ren_arms(r, ws, ps, sh2) =~= s);
}

proof fn lemma_unren_entries(s: Seq<(Seq<char>, LExpr)>, ps: Seq<Seq<char>>, ws: Seq<Seq<char>>, sh: Set<Seq<char>>, sh2: Set<Seq<char>>)
    requires
        rename_ok(ps, ws),
        avoids(sh2, ws),
        fresh_entries(s, ws),
    ensures
        ren_entries(ren_entries(s, ps, ws, sh), ws, ps, sh2) == s,
    decreases s,
{
    let r = ren_entries(s, ps, ws, sh);
    assert forall|i: int| 0 <= i < s.len() implies (r[i].0, ren_expr(r[i].1, ws, ps, sh2)) == s[i] by {
        assert(fresh_expr(s[i].1, ws));
        lemma_unren_expr(s[i].1, ps, ws, sh, sh2);
    }
    assert(ren_entries(r, ws, ps, sh2) =~= s);
}

} // verus!
