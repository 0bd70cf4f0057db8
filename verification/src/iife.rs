//! Flattening of immediately invoked function literals.
//!
//! Two shapes are spliced into the enclosing block:
//!
//! * `return (function(p…) body end)(a…)` as a block's last statement
//!   becomes `local p = a` for each parameter followed by the body, when no
//!   argument mentions an earlier parameter (the call evaluated every
//!   argument before binding any parameter);
//! * `local x = (function() body end)()` and `x = (function() … end)()`,
//!   where the body is `local`/assignment/effect statements up to a tail
//!   `return e` or a tail `if` whose arms end in returns, become the body
//!   with the tail value assigned to `x`; the names the body declares must
//!   not occur in the statements after it.
//!
//! Each function scope has a budget: Lua's local limit less the locals the
//! scope already declares. A splice is declined when the locals it would
//! add exceed what is left, and otherwise spends them. A spliced body is
//! looked at again, so an IIFE inside it is flattened too. Function bodies,
//! including those of function literals, are scopes of their own.

use vstd::prelude::*;
use crate::lua::{Expr, Item, FuncBody, Stmt, Block, LExpr, LItem, LBody, LStmt,
    stmts_model, exprs_model, items_model, arms_model, entries_model, strs_model, expr_text, block_text};
use crate::luaopt::{count_locals, stmt_locals, min_nat, LOCAL_LIMIT};
use crate::loopcore::is_name;
use crate::tokens::{has_token, mentions_any};

verus! {

broadcast use vstd::string::group_string_axioms;

// ---------------------------------------------------------------------
// Size
// ---------------------------------------------------------------------

/// Node count, a function literal weighing two more than its parameters:
/// every splice makes the tree lighter.
pub open spec fn sz_expr(e: LExpr) -> nat
    decreases e,
{
    match e {
        LExpr::Paren(b) => 1 + sz_expr(*b),
        LExpr::Neg(b) => 1 + sz_expr(*b),
        LExpr::Call(f, args) => 1 + sz_expr(*f) + sz_exprs(args),
        LExpr::Method(r, _, args) => 1 + sz_expr(*r) + sz_exprs(args),
        LExpr::Index(b, _) => 1 + sz_expr(*b),
        LExpr::Binop(_, l, r) => 1 + sz_expr(*l) + sz_expr(*r),
        LExpr::Table(items) => 1 + sz_items(items),
        LExpr::TableSpaced(items) => 1 + sz_items(items),
        LExpr::Func(ps, body) => 2 + ps.len() + match body {
            LBody::Inline(ss) => sz_stmts(ss),
            LBody::Block(ss) => sz_stmts(ss),
        },
        _ => 1,
    }
}

pub open spec fn sz_exprs(es: Seq<LExpr>) -> nat
    decreases es,
{
    if es.len() == 0 { 0 } else { sz_exprs(es.drop_last()) + sz_expr(es.last()) }
}

pub open spec fn sz_items(items: Seq<LItem>) -> nat
    decreases items,
{
    if items.len() == 0 {
        0
    } else {
        sz_items(items.drop_last()) + match items.last() {
            LItem::Pos(e) => sz_expr(e),
            LItem::KV(_, e) => sz_expr(e),
        }
    }
}

pub open spec fn sz_stmt(s: LStmt) -> nat
    decreases s,
{
    match s {
        LStmt::Local(_, init) => 1 + match init {
            Some(e) => sz_expr(e),
            None => 0,
        },
        LStmt::Assign(_, e) => 1 + sz_expr(e),
        LStmt::Return(e) => 1 + sz_expr(e),
        LStmt::Expr(e) => 1 + sz_expr(e),
        LStmt::If(c, t, arms, els) => 1 + sz_expr(c) + sz_stmts(t) + sz_arms(arms) + match els {
            Some(b) => sz_stmts(b),
            None => 0,
        },
        LStmt::AssignIf(_, c, t, e) => 1 + sz_expr(c) + sz_expr(t) + sz_expr(e),
        LStmt::Do(b) => 1 + sz_stmts(b),
        LStmt::WhileTrue(b) => 1 + sz_stmts(b),
        LStmt::MultiAssign(_, es) => 1 + sz_exprs(es),
        LStmt::Function(_, _, b) => 1 + sz_stmts(b),
        LStmt::ReturnTable(es) => 1 + sz_entries(es),
        _ => 1,
    }
}

pub open spec fn sz_stmts(ss: Seq<LStmt>) -> nat
    decreases ss,
{
    if ss.len() == 0 { 0 } else { sz_stmts(ss.drop_last()) + sz_stmt(ss.last()) }
}

pub open spec fn sz_arms(arms: Seq<(LExpr, Seq<LStmt>)>) -> nat
    decreases arms,
{
    if arms.len() == 0 { 0 } else { sz_arms(arms.drop_last()) + sz_expr(arms.last().0) + sz_stmts(arms.last().1) }
}

pub open spec fn sz_entries(es: Seq<(Seq<char>, LExpr)>) -> nat
    decreases es,
{
    if es.len() == 0 { 0 } else { sz_entries(es.drop_last()) + sz_expr(es.last().1) }
}

pub proof fn lemma_sz_stmt_pos(s: LStmt)
    ensures
        sz_stmt(s) >= 1,
{
}

pub proof fn lemma_sz_expr_pos(e: LExpr)
    ensures
        sz_expr(e) >= 1,
{
}

/// Sizes add up over concatenation.
pub proof fn lemma_sz_concat(a: Seq<LStmt>, b: Seq<LStmt>)
    ensures
        sz_stmts(a + b) == sz_stmts(a) + sz_stmts(b),
    decreases b.len(),
{
    if b.len() == 0 {
        assert(a + b =~= a);
    } else {
        assert((a + b).drop_last() =~= a + b.drop_last());
        lemma_sz_concat(a, b.drop_last());
    }
}

pub proof fn lemma_sz_first(ss: Seq<LStmt>)
    requires
        ss.len() > 0,
    ensures
        sz_stmts(ss) == sz_stmt(ss[0]) + sz_stmts(ss.drop_first()),
{
    let one = seq![ss[0]];
    assert(one.drop_last() =~= Seq::<LStmt>::empty());
    assert(sz_stmts(one.drop_last()) == 0);
    assert(one.last() == ss[0]);
    assert(sz_stmts(one) == sz_stmt(ss[0]));
    assert(ss =~= one + ss.drop_first());
    lemma_sz_concat(one, ss.drop_first());
}

// ---------------------------------------------------------------------
// The splices
// ---------------------------------------------------------------------

pub open spec fn body_stmts(b: LBody) -> Seq<LStmt> {
    match b {
        LBody::Inline(ss) => ss,
        LBody::Block(ss) => ss,
    }
}

/// `(function(ps) body end)(args)` with as many arguments as parameters.
pub open spec fn iife_parts(e: LExpr) -> Option<(Seq<Seq<char>>, LBody, Seq<LExpr>)> {
    match e {
        LExpr::Call(f, args) => match *f {
            LExpr::Paren(pf) => match *pf {
                LExpr::Func(ps, body) => if ps.len() == args.len() { Some((ps, body, args)) } else { None },
                _ => None,
            },
            _ => None,
        },
        _ => None,
    }
}

/// No argument mentions a parameter bound before it.
pub open spec fn no_capture(ps: Seq<Seq<char>>, args: Seq<LExpr>) -> bool {
    forall|k: int| 1 <= k < args.len() ==> !mentions_any(#[trigger] expr_text(args[k], 0), ps.take(k))
}

/// `local p = a` for each parameter and argument.
pub open spec fn param_locals(ps: Seq<Seq<char>>, args: Seq<LExpr>) -> Seq<LStmt> {
    Seq::new(ps.len(), |k: int| LStmt::Local(seq![ps[k]], Some(args[k])))
}

/// The return-position splice of a block's last statement at budget `b`:
/// the statements and the budget left.
pub open spec fn splice_return(s: LStmt, b: nat) -> Option<(Seq<LStmt>, nat)> {
    match s {
        LStmt::Return(e) => match iife_parts(e) {
            Some((ps, body, args)) => {
                let cost = ps.len() + count_locals(body_stmts(body));
                if no_capture(ps, args) && cost <= b {
                    Some((param_locals(ps, args) + body_stmts(body), (b - cost) as nat))
                } else {
                    None
                }
            },
            None => None,
        },
        _ => None,
    }
}

/// What a value splice assigns to: a fresh local (`true`) or an lvalue,
/// its name, and the function body.
pub open spec fn value_target(s: LStmt) -> Option<(bool, Seq<char>, LBody)> {
    match s {
        LStmt::Local(ns, init) => match init {
            Some(e) => if ns.len() == 1 {
                match iife_parts(e) {
                    Some((ps, body, _)) => if ps.len() == 0 { Some((true, ns[0], body)) } else { None },
                    None => None,
                }
            } else {
                None
            },
            None => None,
        },
        LStmt::Assign(l, e) => match iife_parts(e) {
            Some((ps, body, _)) => if ps.len() == 0 { Some((false, l, body)) } else { None },
            None => None,
        },
        _ => None,
    }
}

/// A statement that may stand before the tail of a value-spliced body.
pub open spec fn straight(s: LStmt) -> bool {
    s is Local || s is Assign || s is Expr
}

/// Would turning the statement's returns into assignments keep its
/// meaning? `strict`: every path must return or raise.
pub open spec fn tail_ok(s: LStmt, strict: bool) -> bool
    decreases s,
{
    match s {
        LStmt::Return(_) => true,
        LStmt::ReturnNone => false,
        LStmt::Expr(e) => match e {
            LExpr::Call(f, _) => is_name(*f, "error"@),
            _ => !strict,
        },
        LStmt::If(_, t, arms, els) => arm_ok(t, strict) && arms_ok(arms, strict) && match els {
            Some(e) => arm_ok(e, strict),
            None => !strict,
        },
        LStmt::Raw(_) => false,
        _ => !strict,
    }
}

pub open spec fn arm_ok(b: Seq<LStmt>, strict: bool) -> bool
    decreases b,
{
    if b.len() > 0 { tail_ok(b.last(), strict) } else { !strict }
}

pub open spec fn arms_ok(arms: Seq<(LExpr, Seq<LStmt>)>, strict: bool) -> bool
    decreases arms,
{
    arms.len() == 0 || (arms_ok(arms.drop_last(), strict) && arm_ok(arms.last().1, strict))
}

/// The statement's tail returns turned into assignments to `lhs`.
pub open spec fn rewrite_tail(s: LStmt, lhs: Seq<char>) -> LStmt
    decreases s,
{
    match s {
        LStmt::Return(e) => LStmt::Assign(lhs, e),
        LStmt::If(c, t, arms, els) => LStmt::If(c, rw_arm(t, lhs), rw_arms(arms, lhs), match els {
            Some(e) => Some(rw_arm(e, lhs)),
            None => None,
        }),
        _ => s,
    }
}

pub open spec fn rw_arm(b: Seq<LStmt>, lhs: Seq<char>) -> Seq<LStmt>
    decreases b,
{
    if b.len() > 0 { b.drop_last().push(rewrite_tail(b.last(), lhs)) } else { b }
}

pub open spec fn rw_arms(arms: Seq<(LExpr, Seq<LStmt>)>, lhs: Seq<char>) -> Seq<(LExpr, Seq<LStmt>)>
    decreases arms,
{
    if arms.len() == 0 {
        arms
    } else {
        rw_arms(arms.drop_last(), lhs).push((arms.last().0, rw_arm(arms.last().1, lhs)))
    }
}

/// The names the `local` statements of a straight-line prefix declare.
pub open spec fn introduced(prefix: Seq<LStmt>) -> Seq<Seq<char>>
    decreases prefix.len(),
{
    if prefix.len() == 0 {
        Seq::empty()
    } else {
        introduced(prefix.drop_last()) + match prefix.last() {
            LStmt::Local(ns, _) => ns,
            _ => Seq::empty(),
        }
    }
}

/// What a value splice puts in place of its statement: the body's prefix
/// and the tail value assigned to `n` (declared first when the tail is an
/// `if` and `n` is fresh).
pub open spec fn value_result(fresh: bool, n: Seq<char>, bs: Seq<LStmt>) -> Seq<LStmt> {
    let tail = bs.last();
    let prefix = bs.drop_last();
    if !(tail is If) {
        let v = match tail {
            LStmt::Return(v) => v,
            _ => LExpr::Name(Seq::empty()),
        };
        prefix.push(if fresh { LStmt::Local(seq![n], Some(v)) } else { LStmt::Assign(n, v) })
    } else if fresh {
        seq![LStmt::Local(seq![n], None)] + prefix.push(rewrite_tail(tail, n))
    } else {
        prefix.push(rewrite_tail(tail, n))
    }
}

/// The value splice of `s`, followed in its block by `rest`, at budget
/// `b`: the statements standing for `s` and the budget left.
pub open spec fn splice_value(s: LStmt, rest: Seq<LStmt>, b: nat) -> Option<(Seq<LStmt>, nat)> {
    match value_target(s) {
        Some((fresh, n, body)) => {
            let bs = body_stmts(body);
            if bs.len() == 0 {
                None
            } else {
                let tail = bs.last();
                let prefix = bs.drop_last();
                let intro = introduced(prefix);
                let tail_if = tail is If;
                if !(forall|j: int| 0 <= j < prefix.len() ==> straight(#[trigger] prefix[j])) {
                    None
                } else if !(tail is Return || (tail_if && tail_ok(tail, !fresh))) {
                    None
                } else if tail_if && fresh && has_token(block_text(bs, 0), n) {
                    None
                } else if mentions_any(block_text(rest, 0), intro) {
                    None
                } else if intro.len() > b {
                    None
                } else {
                    let sp = value_result(fresh, n, bs);
                    Some((sp, (b - intro.len()) as nat))
                }
            }
        },
        None => None,
    }
}

// ---------------------------------------------------------------------
// Splices make the tree lighter
// ---------------------------------------------------------------------

pub proof fn lemma_param_locals_size(ps: Seq<Seq<char>>, args: Seq<LExpr>)
    requires
        ps.len() == args.len(),
    ensures
        sz_stmts(param_locals(ps, args)) == ps.len() + sz_exprs(args),
    decreases ps.len(),
{
    if ps.len() > 0 {
        let pl = param_locals(ps, args);
        assert(pl.drop_last() =~= param_locals(ps.drop_last(), args.drop_last()));
        assert(pl.last() == LStmt::Local(seq![ps.last()], Some(args.last())));
        assert(sz_stmt(pl.last()) == 1 + sz_expr(args.last()));
        lemma_param_locals_size(ps.drop_last(), args.drop_last());
        assert(sz_stmts(pl) == sz_stmts(pl.drop_last()) + sz_stmt(pl.last()));
    }
}

pub proof fn lemma_rewrite_tail_size(s: LStmt, lhs: Seq<char>)
    ensures
        sz_stmt(rewrite_tail(s, lhs)) == sz_stmt(s),
    decreases s,
{
    match s {
        LStmt::If(c, t, arms, els) => {
            lemma_rw_arm_size(t, lhs);
            lemma_rw_arms_size(arms, lhs);
            match els {
                Some(e) => lemma_rw_arm_size(e, lhs),
                None => {},
            }
        },
        _ => {},
    }
}

pub proof fn lemma_rw_arm_size(b: Seq<LStmt>, lhs: Seq<char>)
    ensures
        sz_stmts(rw_arm(b, lhs)) == sz_stmts(b),
    decreases b,
{
    if b.len() > 0 {
        let r = rw_arm(b, lhs);
        assert(r.drop_last() =~= b.drop_last());
        lemma_rewrite_tail_size(b.last(), lhs);
    }
}

pub proof fn lemma_rw_arms_size(arms: Seq<(LExpr, Seq<LStmt>)>, lhs: Seq<char>)
    ensures
        sz_arms(rw_arms(arms, lhs)) == sz_arms(arms),
    decreases arms,
{
    if arms.len() > 0 {
        let r = rw_arms(arms, lhs);
        assert(r.drop_last() =~= rw_arms(arms.drop_last(), lhs));
        lemma_rw_arms_size(arms.drop_last(), lhs);
        lemma_rw_arm_size(arms.last().1, lhs);
    }
}

pub proof fn lemma_splice_return_size(s: LStmt, b: nat)
    requires
        splice_return(s, b) is Some,
    ensures
        sz_stmts(splice_return(s, b).unwrap().0) < sz_stmt(s),
        splice_return(s, b).unwrap().1 <= b,
{
    match s {
        LStmt::Return(e) => match e {
            LExpr::Call(f, args) => match *f {
                LExpr::Paren(pf) => match *pf {
                    LExpr::Func(ps, body) => {
                        assert(sz_expr(*pf) == 2 + ps.len() + sz_stmts(body_stmts(body)));
                        assert(sz_expr(*f) == 1 + sz_expr(*pf));
                        assert(sz_expr(e) == 1 + sz_expr(*f) + sz_exprs(args));
                        assert(sz_stmt(s) == 1 + sz_expr(e));
                        lemma_param_locals_size(ps, args);
                        lemma_sz_concat(param_locals(ps, args), body_stmts(body));
                        assert(splice_return(s, b).unwrap().0 == param_locals(ps, args) + body_stmts(body));
                    },
                    _ => {},
                },
                _ => {},
            },
            _ => {},
        },
        _ => {},
    }
}

pub proof fn lemma_splice_value_size(s: LStmt, rest: Seq<LStmt>, b: nat)
    requires
        splice_value(s, rest, b) is Some,
    ensures
        sz_stmts(splice_value(s, rest, b).unwrap().0) < sz_stmt(s),
        splice_value(s, rest, b).unwrap().1 <= b,
{
    let (fresh, n, body) = value_target(s).unwrap();
    let bs = body_stmts(body);
    let tail = bs.last();
    let prefix = bs.drop_last();
    let e = match s {
        LStmt::Local(_, init) => init.unwrap(),
        LStmt::Assign(_, e) => e,
        _ => LExpr::Name(Seq::empty()),
    };
    assert(sz_stmt(s) == 1 + sz_expr(e));
    match e {
        LExpr::Call(f, args) => match *f {
            LExpr::Paren(pf) => match *pf {
                LExpr::Func(ps, body2) => {
                    assert(body2 == body);
                    assert(sz_expr(*pf) == 2 + sz_stmts(bs));
                    assert(sz_expr(*f) == 1 + sz_expr(*pf));
                    assert(args.len() == 0);
                    assert(sz_exprs(args) == 0);
                    assert(sz_expr(e) == 1 + sz_expr(*f) + sz_exprs(args));
                },
                _ => {},
            },
            _ => {},
        },
        _ => {},
    }
    assert(sz_stmt(s) == 5 + sz_stmts(bs));
    assert(sz_stmts(bs) == sz_stmts(prefix) + sz_stmt(tail));
    let sp = splice_value(s, rest, b).unwrap().0;
    if tail is If {
        let rt = rewrite_tail(tail, n);
        lemma_rewrite_tail_size(tail, n);
        let pp = prefix.push(rt);
        assert(pp.drop_last() =~= prefix);
        assert(pp.last() == rt);
        assert(sz_stmts(pp) == sz_stmts(prefix) + sz_stmt(rt));
        if fresh {
            let one = seq![LStmt::Local(seq![n], None)];
            assert(one.drop_last() =~= Seq::<LStmt>::empty());
            assert(sz_stmts(one.drop_last()) == 0);
            assert(one.last() == LStmt::Local(seq![n], None));
            assert(sz_stmt(one.last()) == 1);
            assert(sz_stmts(one) == 1);
            lemma_sz_concat(one, pp);
            assert(sp == one + pp);
        } else {
            assert(sp == pp);
        }
    } else {
        let v = match tail {
            LStmt::Return(v) => v,
            _ => LExpr::Name(Seq::empty()),
        };
        assert(sz_stmt(tail) == 1 + sz_expr(v));
        assert(sp.drop_last() =~= prefix);
        assert(sz_stmt(sp.last()) == 1 + sz_expr(v));
        assert(sz_stmts(sp) == sz_stmts(sp.drop_last()) + sz_stmt(sp.last()));
    }
}

// ---------------------------------------------------------------------
// The pass
// ---------------------------------------------------------------------

/// The budget of a function scope: the local limit less what it declares.
pub open spec fn scope_budget(ss: Seq<LStmt>) -> nat {
    (LOCAL_LIMIT as nat - min_nat(count_locals(ss), LOCAL_LIMIT as nat)) as nat
}

/// A function scope flattened with its own budget.
pub open spec fn flat_block(ss: Seq<LStmt>) -> Seq<LStmt>
    decreases sz_stmts(ss), 3nat,
{
    flat_seq(ss, scope_budget(ss)).0
}

/// The statements of a scope from the current one on, at budget `b`: a
/// return splice of the last statement, else a value splice, else the
/// statement's own blocks and function literals; a splice is looked at
/// again.
pub open spec fn flat_seq(ss: Seq<LStmt>, b: nat) -> (Seq<LStmt>, nat)
    decreases sz_stmts(ss), 2nat,
{
    if ss.len() == 0 {
        (ss, b)
    } else if ss.len() == 1 && splice_return(ss[0], b) is Some {
        proof {
            lemma_splice_return_size(ss[0], b);
            lemma_sz_first(ss);
        }
        flat_seq(splice_return(ss[0], b).unwrap().0, splice_return(ss[0], b).unwrap().1)
    } else if splice_value(ss[0], ss.drop_first(), b) is Some {
        proof {
            lemma_splice_value_size(ss[0], ss.drop_first(), b);
            lemma_sz_first(ss);
            lemma_sz_concat(splice_value(ss[0], ss.drop_first(), b).unwrap().0, ss.drop_first());
        }
        flat_seq(splice_value(ss[0], ss.drop_first(), b).unwrap().0 + ss.drop_first(), splice_value(ss[0], ss.drop_first(), b).unwrap().1)
    } else {
        proof {
            lemma_sz_first(ss);
        }
        let (s1, b1) = flat_stmt(ss[0], b);
        let (rest, b2) = flat_seq(ss.drop_first(), b1);
        (seq![s1] + rest, b2)
    }
}

/// One statement: its sub-blocks share the scope's budget (in order), its
/// function literals and named function bodies are scopes of their own.
pub open spec fn flat_stmt(s: LStmt, b: nat) -> (LStmt, nat)
    decreases sz_stmt(s), 1nat,
{
    match s {
        LStmt::If(c, t, arms, els) => {
            let (t1, b1) = flat_seq(t, b);
            let (a1, b2) = flat_arms(arms, b1);
            match els {
                Some(e) => {
                    let (e1, b3) = flat_seq(e, b2);
                    (LStmt::If(fx(c), t1, a1, Some(e1)), b3)
                },
                None => (LStmt::If(fx(c), t1, a1, None), b2),
            }
        },
        LStmt::Do(x) => {
            let (x1, b1) = flat_seq(x, b);
            (LStmt::Do(x1), b1)
        },
        LStmt::WhileTrue(x) => {
            let (x1, b1) = flat_seq(x, b);
            (LStmt::WhileTrue(x1), b1)
        },
        LStmt::Function(t, ps, body) => (LStmt::Function(t, ps, flat_block(body)), b),
        _ => (fx_stmt(s), b),
    }
}

pub open spec fn flat_arms(arms: Seq<(LExpr, Seq<LStmt>)>, b: nat) -> (Seq<(LExpr, Seq<LStmt>)>, nat)
    decreases sz_arms(arms), 2nat,
{
    if arms.len() == 0 {
        (arms, b)
    } else {
        proof {
            lemma_sz_expr_pos(arms.last().0);
        }
        let (front, b1) = flat_arms(arms.drop_last(), b);
        let (blk, b2) = flat_seq(arms.last().1, b1);
        (front.push((fx(arms.last().0), blk)), b2)
    }
}

/// The function literals of an expression flattened as scopes.
pub open spec fn fx(e: LExpr) -> LExpr
    decreases sz_expr(e), 0nat,
{
    match e {
        LExpr::Paren(x) => LExpr::Paren(Box::new(fx(*x))),
        LExpr::Neg(x) => LExpr::Neg(Box::new(fx(*x))),
        LExpr::Call(f, args) => LExpr::Call(Box::new(fx(*f)), fx_exprs(args)),
        LExpr::Method(r, m, args) => LExpr::Method(Box::new(fx(*r)), m, fx_exprs(args)),
        LExpr::Index(x, sfx) => LExpr::Index(Box::new(fx(*x)), sfx),
        LExpr::Binop(op, l, r) => LExpr::Binop(op, Box::new(fx(*l)), Box::new(fx(*r))),
        LExpr::Table(items) => LExpr::Table(fx_items(items)),
        LExpr::TableSpaced(items) => LExpr::TableSpaced(fx_items(items)),
        LExpr::Func(ps, body) => LExpr::Func(ps, match body {
            LBody::Inline(ss) => LBody::Inline(flat_block(ss)),
            LBody::Block(ss) => LBody::Block(flat_block(ss)),
        }),
        _ => e,
    }
}

pub open spec fn fx_exprs(es: Seq<LExpr>) -> Seq<LExpr>
    decreases sz_exprs(es), 1nat,
{
    if es.len() == 0 {
        es
    } else {
        proof {
            lemma_sz_expr_pos(es.last());
        }
        fx_exprs(es.drop_last()).push(fx(es.last()))
    }
}

pub open spec fn fx_items(items: Seq<LItem>) -> Seq<LItem>
    decreases sz_items(items), 1nat,
{
    if items.len() == 0 {
        items
    } else {
        proof {
            match items.last() {
                LItem::Pos(e) => lemma_sz_expr_pos(e),
                LItem::KV(_, e) => lemma_sz_expr_pos(e),
            }
        }
        fx_items(items.drop_last()).push(match items.last() {
            LItem::Pos(e) => LItem::Pos(fx(e)),
            LItem::KV(k, e) => LItem::KV(k, fx(e)),
        })
    }
}

pub open spec fn fx_entries(es: Seq<(Seq<char>, LExpr)>) -> Seq<(Seq<char>, LExpr)>
    decreases sz_entries(es), 1nat,
{
    if es.len() == 0 {
        es
    } else {
        proof {
            lemma_sz_expr_pos(es.last().1);
        }
        fx_entries(es.drop_last()).push((es.last().0, fx(es.last().1)))
    }
}

/// The function literals in a statement's own expressions.
pub open spec fn fx_stmt(s: LStmt) -> LStmt
    decreases sz_stmt(s), 0nat,
{
    match s {
        LStmt::Local(ns, init) => LStmt::Local(ns, match init {
            Some(e) => Some(fx(e)),
            None => None,
        }),
        LStmt::Assign(l, e) => LStmt::Assign(l, fx(e)),
        LStmt::Return(e) => LStmt::Return(fx(e)),
        LStmt::Expr(e) => LStmt::Expr(fx(e)),
        LStmt::MultiAssign(ls, es) => LStmt::MultiAssign(ls, fx_exprs(es)),
        LStmt::AssignIf(l, c, t, e) => LStmt::AssignIf(l, fx(c), fx(t), fx(e)),
        LStmt::ReturnTable(es) => LStmt::ReturnTable(fx_entries(es)),
        _ => s,
    }
}

// ---------------------------------------------------------------------
// The locals budget holds
// ---------------------------------------------------------------------

/// Every immediately invoked function literal that a splice could bring
/// into this scope (in its statements, their sub-blocks, the arguments
/// and bodies of such literals) whose body ends in an `if` declares no
/// locals in that `if`: the one shape whose spliced locals go uncharged.
pub open spec fn lean_expr(e: LExpr) -> bool
    decreases e,
{
    match e {
        LExpr::Call(f, args) => match *f {
            LExpr::Paren(pf) => match *pf {
                LExpr::Func(ps, body) => if ps.len() == args.len() {
                    match body {
                        LBody::Inline(bs) => (bs.len() > 0 && bs.last() is If ==> stmt_locals(bs.last()) == 0)
                            && lean_stmts(bs) && lean_args(args),
                        LBody::Block(bs) => (bs.len() > 0 && bs.last() is If ==> stmt_locals(bs.last()) == 0)
                            && lean_stmts(bs) && lean_args(args),
                    }
                } else {
                    true
                },
                _ => true,
            },
            _ => true,
        },
        _ => true,
    }
}

pub open spec fn lean_args(args: Seq<LExpr>) -> bool
    decreases args,
{
    args.len() == 0 || (lean_args(args.drop_last()) && lean_expr(args.last()))
}

pub open spec fn lean_stmt(s: LStmt) -> bool
    decreases s,
{
    match s {
        LStmt::Return(e) => lean_expr(e),
        LStmt::Assign(_, e) => lean_expr(e),
        LStmt::Local(_, init) => match init {
            Some(e) => lean_expr(e),
            None => true,
        },
        LStmt::If(_, t, arms, els) => lean_stmts(t) && lean_arms(arms) && match els {
            Some(b) => lean_stmts(b),
            None => true,
        },
        LStmt::Do(b) => lean_stmts(b),
        LStmt::WhileTrue(b) => lean_stmts(b),
        _ => true,
    }
}

pub open spec fn lean_stmts(ss: Seq<LStmt>) -> bool
    decreases ss,
{
    ss.len() == 0 || (lean_stmts(ss.drop_last()) && lean_stmt(ss.last()))
}

pub open spec fn lean_arms(arms: Seq<(LExpr, Seq<LStmt>)>) -> bool
    decreases arms,
{
    arms.len() == 0 || (lean_arms(arms.drop_last()) && lean_stmts(arms.last().1))
}

proof fn lemma_count_concat(a: Seq<LStmt>, b: Seq<LStmt>)
    ensures
        count_locals(a + b) == count_locals(a) + count_locals(b),
        lean_stmts(a + b) == (lean_stmts(a) && lean_stmts(b)),
    decreases b.len(),
{
    if b.len() == 0 {
        assert(a + b =~= a);
    } else {
        assert((a + b).drop_last() =~= a + b.drop_last());
        lemma_count_concat(a, b.drop_last());
    }
}

proof fn lemma_count_one(s: LStmt)
    ensures
        count_locals(seq![s]) == stmt_locals(s),
        lean_stmts(seq![s]) == lean_stmt(s),
{
    let one = seq![s];
    assert(one.drop_last() =~= Seq::<LStmt>::empty());
    assert(count_locals(one.drop_last()) == 0);
    assert(lean_stmts(one.drop_last()));
    assert(one.last() == s);
    assert(count_locals(one) == count_locals(one.drop_last()) + stmt_locals(one.last()));
}

proof fn lemma_count_first(ss: Seq<LStmt>)
    requires
        ss.len() > 0,
    ensures
        count_locals(ss) == stmt_locals(ss[0]) + count_locals(ss.drop_first()),
        lean_stmts(ss) == (lean_stmt(ss[0]) && lean_stmts(ss.drop_first())),
{
    assert(ss =~= seq![ss[0]] + ss.drop_first());
    lemma_count_concat(seq![ss[0]], ss.drop_first());
    lemma_count_one(ss[0]);
}

proof fn lemma_count_push(ss: Seq<LStmt>, s: LStmt)
    ensures
        count_locals(ss.push(s)) == count_locals(ss) + stmt_locals(s),
        lean_stmts(ss.push(s)) == (lean_stmts(ss) && lean_stmt(s)),
{
    assert(ss.push(s).drop_last() =~= ss);
}

proof fn lemma_param_locals_count(ps: Seq<Seq<char>>, args: Seq<LExpr>)
    requires
        ps.len() == args.len(),
    ensures
        count_locals(param_locals(ps, args)) == ps.len(),
        lean_stmts(param_locals(ps, args)) == lean_args(args),
    decreases ps.len(),
{
    if ps.len() > 0 {
        let pl = param_locals(ps, args);
        assert(pl.drop_last() =~= param_locals(ps.drop_last(), args.drop_last()));
        assert(pl.last() == LStmt::Local(seq![ps.last()], Some(args.last())));
        assert(stmt_locals(pl.last()) == 1);
        assert(lean_stmt(pl.last()) == lean_expr(args.last()));
        lemma_param_locals_count(ps.drop_last(), args.drop_last());
        assert(count_locals(pl) == count_locals(pl.drop_last()) + stmt_locals(pl.last()));
        assert(lean_stmts(pl) == (lean_stmts(pl.drop_last()) && lean_stmt(pl.last())));
    } else {
        assert(param_locals(ps, args) =~= Seq::<LStmt>::empty());
    }
}

proof fn lemma_rewrite_tail_locals(s: LStmt, lhs: Seq<char>)
    ensures
        stmt_locals(rewrite_tail(s, lhs)) == stmt_locals(s),
        lean_stmt(rewrite_tail(s, lhs)) == lean_stmt(s),
    decreases s,
{
    match s {
        LStmt::If(c, t, arms, els) => {
            lemma_rw_arm_locals(t, lhs);
            lemma_rw_arms_locals(arms, lhs);
            match els {
                Some(e) => lemma_rw_arm_locals(e, lhs),
                None => {},
            }
        },
        _ => {},
    }
}

proof fn lemma_rw_arm_locals(b: Seq<LStmt>, lhs: Seq<char>)
    ensures
        count_locals(rw_arm(b, lhs)) == count_locals(b),
        lean_stmts(rw_arm(b, lhs)) == lean_stmts(b),
    decreases b,
{
    if b.len() > 0 {
        let r = rw_arm(b, lhs);
        assert(r.drop_last() =~= b.drop_last());
        lemma_rewrite_tail_locals(b.last(), lhs);
    }
}

proof fn lemma_rw_arms_locals(arms: Seq<(LExpr, Seq<LStmt>)>, lhs: Seq<char>)
    ensures
        crate::luaopt::arms_locals(rw_arms(arms, lhs)) == crate::luaopt::arms_locals(arms),
        lean_arms(rw_arms(arms, lhs)) == lean_arms(arms),
    decreases arms,
{
    if arms.len() > 0 {
        let r = rw_arms(arms, lhs);
        assert(r.drop_last() =~= rw_arms(arms.drop_last(), lhs));
        lemma_rw_arms_locals(arms.drop_last(), lhs);
        lemma_rw_arm_locals(arms.last().1, lhs);
    }
}

/// A straight-line prefix declares exactly its introduced names.
proof fn lemma_introduced_count(prefix: Seq<LStmt>)
    requires
        forall|j: int| 0 <= j < prefix.len() ==> straight(#[trigger] prefix[j]),
    ensures
        count_locals(prefix) == introduced(prefix).len(),
    decreases prefix.len(),
{
    if prefix.len() > 0 {
        assert forall|j: int| 0 <= j < prefix.drop_last().len() implies straight(#[trigger] prefix.drop_last()[j]) by {
            assert(prefix.drop_last()[j] == prefix[j]);
        }
        assert(straight(prefix[prefix.len() - 1]));
        lemma_introduced_count(prefix.drop_last());
        let l = prefix.last();
        assert(count_locals(prefix) == count_locals(prefix.drop_last()) + stmt_locals(l));
        match l {
            LStmt::Local(ns, _) => {
                assert(stmt_locals(l) == ns.len());
            },
            _ => {
                assert(stmt_locals(l) == 0);
            },
        }
    }
}

proof fn lemma_splice_return_locals(s: LStmt, b: nat)
    requires
        splice_return(s, b) is Some,
        lean_stmt(s),
    ensures
        count_locals(splice_return(s, b).unwrap().0) + splice_return(s, b).unwrap().1 == stmt_locals(s) + b,
        lean_stmts(splice_return(s, b).unwrap().0),
{
    let (ps, body, args) = ret_parts(s).unwrap();
    lemma_param_locals_count(ps, args);
    lemma_count_concat(param_locals(ps, args), body_stmts(body));
}

proof fn lemma_splice_value_locals(s: LStmt, rest: Seq<LStmt>, b: nat)
    requires
        splice_value(s, rest, b) is Some,
        lean_stmt(s),
    ensures
        count_locals(splice_value(s, rest, b).unwrap().0) + splice_value(s, rest, b).unwrap().1 == stmt_locals(s) + b,
        lean_stmts(splice_value(s, rest, b).unwrap().0),
{
    let (fresh, n, body) = value_target(s).unwrap();
    let bs = body_stmts(body);
    let tail = bs.last();
    let prefix = bs.drop_last();
    lemma_introduced_count(prefix);
    lemma_count_push(prefix, tail);
    assert(prefix.push(tail) =~= bs);
    assert(stmt_locals(s) == if fresh { 1nat } else { 0nat });
    if tail is If {
        let rt = rewrite_tail(tail, n);
        lemma_rewrite_tail_locals(tail, n);
        lemma_count_push(prefix, rt);
        if fresh {
            lemma_count_one(LStmt::Local(seq![n], None));
            lemma_count_concat(seq![LStmt::Local(seq![n], None)], prefix.push(rt));
        }
    } else {
        let v = match tail {
            LStmt::Return(v) => v,
            _ => LExpr::Name(Seq::empty()),
        };
        let x = if fresh { LStmt::Local(seq![n], Some(v)) } else { LStmt::Assign(n, v) };
        lemma_count_push(prefix, x);
    }
}

proof fn lemma_fx_stmt_locals(s: LStmt)
    ensures
        stmt_locals(fx_stmt(s)) == stmt_locals(s),
{
}

proof fn lemma_flat_seq_locals(ss: Seq<LStmt>, b: nat)
    requires
        lean_stmts(ss),
    ensures
        count_locals(flat_seq(ss, b).0) + flat_seq(ss, b).1 == count_locals(ss) + b,
    decreases sz_stmts(ss), 2nat,
{
    if ss.len() == 0 {
    } else {
        lemma_count_first(ss);
        lemma_sz_first(ss);
        lemma_sz_stmt_pos(ss[0]);
        if ss.len() == 1 && splice_return(ss[0], b) is Some {
            let (sp, b1) = splice_return(ss[0], b).unwrap();
            lemma_splice_return_size(ss[0], b);
            lemma_splice_return_locals(ss[0], b);
            lemma_flat_seq_locals(sp, b1);
        } else if splice_value(ss[0], ss.drop_first(), b) is Some {
            let rest = ss.drop_first();
            let (sp, b1) = splice_value(ss[0], rest, b).unwrap();
            lemma_splice_value_size(ss[0], rest, b);
            lemma_splice_value_locals(ss[0], rest, b);
            lemma_sz_concat(sp, rest);
            lemma_count_concat(sp, rest);
            lemma_flat_seq_locals(sp + rest, b1);
        } else {
            let (s1, b1) = flat_stmt(ss[0], b);
            lemma_flat_stmt_locals(ss[0], b);
            lemma_flat_seq_locals(ss.drop_first(), b1);
            let (r, b2) = flat_seq(ss.drop_first(), b1);
            lemma_count_one(s1);
            lemma_count_concat(seq![s1], r);
        }
    }
}

proof fn lemma_flat_stmt_locals(s: LStmt, b: nat)
    requires
        lean_stmt(s),
    ensures
        stmt_locals(flat_stmt(s, b).0) + flat_stmt(s, b).1 == stmt_locals(s) + b,
    decreases sz_stmt(s), 1nat,
{
    match s {
        LStmt::If(c, t, arms, els) => {
            lemma_flat_seq_locals(t, b);
            let (t1, b1) = flat_seq(t, b);
            lemma_flat_arms_locals(arms, b1);
            let (a1, b2) = flat_arms(arms, b1);
            match els {
                Some(e) => lemma_flat_seq_locals(e, b2),
                None => {},
            }
        },
        LStmt::Do(x) => lemma_flat_seq_locals(x, b),
        LStmt::WhileTrue(x) => lemma_flat_seq_locals(x, b),
        LStmt::Function(_, _, _) => {},
        _ => lemma_fx_stmt_locals(s),
    }
}

proof fn lemma_flat_arms_locals(arms: Seq<(LExpr, Seq<LStmt>)>, b: nat)
    requires
        lean_arms(arms),
    ensures
        crate::luaopt::arms_locals(flat_arms(arms, b).0) + flat_arms(arms, b).1 == crate::luaopt::arms_locals(arms) + b,
    decreases sz_arms(arms), 2nat,
{
    if arms.len() > 0 {
        lemma_sz_expr_pos(arms.last().0);
        lemma_flat_arms_locals(arms.drop_last(), b);
        let (front, b1) = flat_arms(arms.drop_last(), b);
        lemma_flat_seq_locals(arms.last().1, b1);
        let (blk, b2) = flat_seq(arms.last().1, b1);
        let r = front.push((fx(arms.last().0), blk));
        assert(r.drop_last() =~= front);
    }
}

/// Flattening never takes a function scope past Lua's local limit on its
/// own: afterwards the scope declares at most the limit, or what it
/// declared before where that was more. Every splice is charged the
/// locals it brings in, except those declared inside the arms of a tail
/// `if` of a value-spliced body; the statement holds where there are none.
pub proof fn lemma_flat_block_locals(ss: Seq<LStmt>)
    requires
        lean_stmts(ss),
    ensures
        count_locals(flat_block(ss)) <= if count_locals(ss) > LOCAL_LIMIT { count_locals(ss) } else { LOCAL_LIMIT as nat },
{
    lemma_flat_seq_locals(ss, scope_budget(ss));
}

// ---------------------------------------------------------------------
// Computed: the splices
// ---------------------------------------------------------------------

pub open spec fn ret_parts(s: LStmt) -> Option<(Seq<Seq<char>>, LBody, Seq<LExpr>)> {
    match s {
        LStmt::Return(e) => iife_parts(e),
        _ => None,
    }
}

fn iife_ref(e: &Expr) -> (r: Option<(&Vec<String>, &FuncBody, &Vec<Expr>)>)
    ensures
        match r {
            Some((ps, body, args)) => iife_parts(e@) == Some((strs_model(ps@), body@, exprs_model(args@))),
            None => iife_parts(e@) is None,
        },
{
    match e {
        Expr::Call(f, args) => match &**f {
            Expr::Paren(pf) => match &**pf {
                Expr::Func(ps, body) => {
                    assert(e@ == LExpr::Call(Box::new((**f)@), exprs_model(args@)));
                    assert((**f)@ == LExpr::Paren(Box::new((**pf)@)));
                    assert((**pf)@ == LExpr::Func(strs_model(ps@), body@));
                    if ps.len() == args.len() {
                        Some((ps, body, args))
                    } else {
                        None
                    }
                },
                _ => None,
            },
            _ => None,
        },
        _ => None,
    }
}

fn body_ref(b: &FuncBody) -> (r: &Vec<Stmt>)
    ensures
        stmts_model(r@) == body_stmts(b@),
{
    match b {
        FuncBody::Inline(ss) => ss,
        FuncBody::Block(Block(ss)) => ss,
    }
}

fn body_into(b: FuncBody) -> (r: Vec<Stmt>)
    ensures
        stmts_model(r@) == body_stmts(b@),
{
    match b {
        FuncBody::Inline(ss) => ss,
        FuncBody::Block(Block(ss)) => ss,
    }
}

proof fn lemma_views_push(v: Seq<String>, x: String)
    ensures
        strs_model(v.push(x)) == strs_model(v).push(x@),
{
    let a = strs_model(v.push(x));
    let b = strs_model(v).push(x@);
    assert forall|j: int| 0 <= j < a.len() implies a[j] == b[j] by {
        if j < v.len() {
            assert(v.push(x)[j] == v[j]);
        }
    }
    assert(a =~= b);
}

fn no_capture_exec(ps: &Vec<String>, args: &Vec<Expr>) -> (r: bool)
    requires
        ps.len() == args.len(),
    ensures
        r == no_capture(strs_model(ps@), exprs_model(args@)),
{
    let ghost pm = strs_model(ps@);
    let ghost am = exprs_model(args@);
    let mut seen: Vec<String> = Vec::new();
    let mut k: usize = 0;
    while k < args.len()
        invariant
            ps.len() == args.len(),
            pm == strs_model(ps@),
            am == exprs_model(args@),
            k <= args@.len(),
            crate::text::views(seen@) == pm.take(k as int),
            forall|j: int| 1 <= j < k ==> !mentions_any(#[trigger] expr_text(am[j], 0), pm.take(j)),
        decreases args@.len() - k,
    {
        if k > 0 {
            let t = crate::deadbranch::text_of(&args[k]);
            assert(am[k as int] == args@[k as int]@);
            if crate::tokens::text_mentions(t.as_str(), &seen) {
                return false;
            }
        }
        let p = ps[k].clone();
        assert(pm[k as int] == ps@[k as int]@);
        let ghost sv = seen@;
        let ghost pv = p;
        seen.push(p);
        proof {
            lemma_views_push(sv, pv);
        }
        assert(crate::text::views(seen@) =~= pm.take(k as int + 1));
        k = k + 1;
    }
    true
}

/// The budget a return splice of `s` would spend, where one applies.
fn return_splice_cost(s: &Stmt, budget: usize) -> (r: Option<usize>)
    requires
        budget <= LOCAL_LIMIT,
    ensures
        (r is Some) == (splice_return(s@, budget as nat) is Some),
        r is Some ==> r.unwrap() <= budget && splice_return(s@, budget as nat).unwrap().1 == budget - r.unwrap(),
{
    match s {
        Stmt::Return(e) => match iife_ref(e) {
            Some((ps, body, args)) => {
                if !no_capture_exec(ps, args) {
                    return None;
                }
                let bs = body_ref(body);
                let c = crate::luaopt::count_locals_capped(bs, budget + 1);
                if ps.len() > budget || c > budget - ps.len() {
                    return None;
                }
                Some(ps.len() + c)
            },
            None => None,
        },
        _ => None,
    }
}

/// `local p = a` for each parameter and argument, then the body.
fn build_return_splice(s: Stmt) -> (r: Vec<Stmt>)
    requires
        ret_parts(s@) is Some,
    ensures
        stmts_model(r@) == param_locals(ret_parts(s@).unwrap().0, ret_parts(s@).unwrap().2) + body_stmts(ret_parts(s@).unwrap().1),
{
    let ghost sm = s@;
    match s {
        Stmt::Return(e) => {
            let ghost em = e@;
            assert(sm == LStmt::Return(em));
            match e {
                Expr::Call(f, args) => {
                    let ghost fm = (*f)@;
                    assert(em == LExpr::Call(Box::new(fm), exprs_model(args@)));
                    match *f {
                        Expr::Paren(pf) => {
                            let ghost pfm = (*pf)@;
                            assert(fm == LExpr::Paren(Box::new(pfm)));
                            match *pf {
                                Expr::Func(ps, body) => {
                                    assert(pfm == LExpr::Func(strs_model(ps@), body@));
                                    let ghost pm = strs_model(ps@);
                                    let ghost am = exprs_model(args@);
                                    assert(ret_parts(sm) == Some((pm, body@, am)));
                                    let out = splice_params(ps, args);
                                    let mut out = out;
                                    let mut bs = body_into(body);
                                    let ghost om = stmts_model(out@);
                                    let ghost bm = stmts_model(bs@);
                                    out.append(&mut bs);
                                    assert(stmts_model(out@) =~= om + bm);
                                    out
                                },
                                _ => Vec::new(),
                            }
                        },
                        _ => Vec::new(),
                    }
                },
                _ => Vec::new(),
            }
        },
        _ => Vec::new(),
    }
}

/// `local p = a` for each parameter and argument.
fn splice_params(ps: Vec<String>, args: Vec<Expr>) -> (r: Vec<Stmt>)
    requires
        ps.len() == args.len(),
    ensures
        stmts_model(r@) == param_locals(strs_model(ps@), exprs_model(args@)),
{
    let ghost pm = strs_model(ps@);
    let ghost am = exprs_model(args@);
    let n = ps.len();
    let mut ps = ps;
    let mut args = args;
    let mut out: Vec<Stmt> = Vec::new();
    let mut k: usize = 0;
    while ps.len() > 0
        invariant
            n == pm.len(),
            pm.len() == am.len(),
            k <= n,
            ps@.len() == n - k,
            args@.len() == n - k,
            strs_model(ps@) == pm.skip(k as int),
            exprs_model(args@) == am.skip(k as int),
            out@.len() == k,
            stmts_model(out@) == param_locals(pm, am).take(k as int),
        decreases ps@.len(),
    {
        let ghost psv = ps@;
        let ghost asv = args@;
        let ghost ov = out@;
        assert(strs_model(psv)[0] == psv[0]@);
        assert(exprs_model(asv)[0] == asv[0]@);
        let p = ps.remove(0);
        let a = args.remove(0);
        assert(p@ == pm[k as int]);
        assert(a@ == am[k as int]);
        assert(ps@ =~= psv.drop_first());
        assert(args@ =~= asv.drop_first());
        let mut v: Vec<String> = Vec::new();
        v.push(p);
        assert(strs_model(v@) =~= seq![pm[k as int]]);
        let st = Stmt::Local(v, Some(a));
        assert(st@ == LStmt::Local(seq![pm[k as int]], Some(am[k as int])));
        out.push(st);
        proof {
            let x = stmts_model(out@);
            let y = param_locals(pm, am).take(k as int + 1);
            assert forall|j: int| 0 <= j < x.len() implies x[j] == y[j] by {
                if j < k {
                    assert(out@[j] == ov[j]);
                    assert(stmts_model(ov)[j] == ov[j]@);
                }
            }
            assert(x =~= y);
            let p2 = strs_model(ps@);
            assert forall|j: int| 0 <= j < p2.len() implies p2[j] == pm.skip(k as int + 1)[j] by {
                assert(ps@[j] == psv[j + 1]);
                assert(strs_model(psv)[j + 1] == psv[j + 1]@);
            }
            assert(p2 =~= pm.skip(k as int + 1));
            let a2 = exprs_model(args@);
            assert forall|j: int| 0 <= j < a2.len() implies a2[j] == am.skip(k as int + 1)[j] by {
                assert(args@[j] == asv[j + 1]);
                assert(exprs_model(asv)[j + 1] == asv[j + 1]@);
            }
            assert(a2 =~= am.skip(k as int + 1));
        }
        k = k + 1;
    }
    assert(param_locals(pm, am).take(k as int) =~= param_locals(pm, am));
    out
}

fn tail_ok_exec(s: &Stmt, strict: bool) -> (r: bool)
    ensures
        r == tail_ok(s@, strict),
    decreases s,
{
    match s {
        Stmt::Return(_) => true,
        Stmt::ReturnNone => false,
        Stmt::Expr(e) => match e {
            Expr::Call(f, _) => crate::loopcore::is_name_exec(f, "error"),
            _ => !strict,
        },
        Stmt::If { cond: _, then_b, elseifs, else_b } => {
            if !arm_ok_exec(&then_b.0, strict) {
                return false;
            }
            if !arms_ok_exec(elseifs, strict) {
                return false;
            }
            match else_b {
                Some(e) => arm_ok_exec(&e.0, strict),
                None => !strict,
            }
        },
        Stmt::Raw(_) => false,
        _ => !strict,
    }
}

fn arm_ok_exec(b: &Vec<Stmt>, strict: bool) -> (r: bool)
    ensures
        r == arm_ok(stmts_model(b@), strict),
    decreases b,
{
    if b.len() > 0 {
        assert(decreases_to!(b => b@[b@.len() - 1]));
        tail_ok_exec(&b[b.len() - 1], strict)
    } else {
        !strict
    }
}

fn arms_ok_exec(arms: &Vec<(Expr, Block)>, strict: bool) -> (r: bool)
    ensures
        r == arms_ok(arms_model(arms@), strict),
    decreases arms,
{
    let ghost am = arms_model(arms@);
    let mut i: usize = 0;
    while i < arms.len()
        invariant
            i <= arms@.len(),
            am == arms_model(arms@),
            arms_ok(am.take(i as int), strict),
        decreases arms@.len() - i,
    {
        assert(decreases_to!(arms => arms@[i as int]));
        assert(am.take(i as int + 1).drop_last() =~= am.take(i as int));
        if !arm_ok_exec(&arms[i].1.0, strict) {
            proof {
                assert(am.take(i as int + 1).last() == am[i as int]);
                if arms_ok(am, strict) {
                    lemma_arms_ok_prefix(am, i as int + 1, strict);
                }
            }
            return false;
        }
        i = i + 1;
    }
    assert(am.take(arms@.len() as int) =~= am);
    true
}

proof fn lemma_arms_ok_prefix(arms: Seq<(LExpr, Seq<LStmt>)>, n: int, strict: bool)
    requires
        0 <= n <= arms.len(),
        arms_ok(arms, strict),
    ensures
        arms_ok(arms.take(n), strict),
    decreases arms.len(),
{
    if n < arms.len() {
        lemma_arms_ok_prefix(arms.drop_last(), n, strict);
        assert(arms.drop_last().take(n) =~= arms.take(n));
    } else {
        assert(arms.take(n) =~= arms);
    }
}

fn rewrite_tail_exec(s: Stmt, lhs: &String) -> (r: Stmt)
    ensures
        r@ == rewrite_tail(s@, lhs@),
    decreases s,
{
    match s {
        Stmt::Return(e) => Stmt::Assign(lhs.clone(), e),
        Stmt::If { cond, then_b, elseifs, else_b } => {
            let t = rw_arm_exec(then_b.0, lhs);
            let a = rw_arms_exec(elseifs, lhs);
            let e = match else_b {
                Some(b) => Some(Block(rw_arm_exec(b.0, lhs))),
                None => None,
            };
            Stmt::If { cond, then_b: Block(t), elseifs: a, else_b: e }
        },
        other => other,
    }
}

fn rw_arm_exec(b: Vec<Stmt>, lhs: &String) -> (r: Vec<Stmt>)
    ensures
        stmts_model(r@) == rw_arm(stmts_model(b@), lhs@),
    decreases b,
{
    if b.len() == 0 {
        return b;
    }
    let ghost bm = stmts_model(b@);
    assert(decreases_to!(b => b@[b@.len() - 1]));
    let mut b = b;
    let last = b.pop().unwrap();
    assert(stmts_model(b@) =~= bm.drop_last());
    let nl = rewrite_tail_exec(last, lhs);
    b.push(nl);
    assert(stmts_model(b@) =~= rw_arm(bm, lhs@));
    b
}

fn rw_arms_exec(arms: Vec<(Expr, Block)>, lhs: &String) -> (r: Vec<(Expr, Block)>)
    ensures
        arms_model(r@) == rw_arms(arms_model(arms@), lhs@),
    decreases arms,
{
    let ghost a0 = arms@;
    let ghost am = arms_model(arms@);
    let len = arms.len();
    let mut rest = arms;
    let mut out: Vec<(Expr, Block)> = Vec::new();
    let mut i: usize = 0;
    assert(am.take(0) =~= Seq::<(LExpr, Seq<LStmt>)>::empty());
    assert(arms_model(out@) =~= Seq::<(LExpr, Seq<LStmt>)>::empty());
    while rest.len() > 0
        invariant
            len == a0.len(),
            arms@ == a0,
            am == arms_model(a0),
            i <= len,
            rest@ == a0.skip(i as int),
            out@.len() == i,
            arms_model(out@) == rw_arms(am.take(i as int), lhs@),
        decreases rest@.len(),
    {
        assert(a0.skip(i as int).len() > 0);
        let (c, b) = rest.remove(0);
        assert(a0[i as int] == (c, b));
        assert(am[i as int] == (c@, stmts_model(b.0@)));
        assert(decreases_to!(arms => arms@[i as int]));
        let nb = rw_arm_exec(b.0, lhs);
        let ghost ov = out@;
        out.push((c, Block(nb)));
        proof {
            let t = am.take(i as int + 1);
            assert(t.drop_last() =~= am.take(i as int));
            assert(t.last() == am[i as int]);
            let x = arms_model(out@);
            let y = rw_arms(t, lhs@);
            assert forall|j: int| 0 <= j < x.len() implies x[j] == y[j] by {
                if j < i {
                    assert(out@[j] == ov[j]);
                    assert(arms_model(ov)[j] == x[j]);
                }
            }
            assert(x =~= y);
        }
        assert(rest@ =~= a0.skip(i as int + 1));
        i = i + 1;
    }
    assert(am.take(len as int) =~= am);
    out
}

fn extend_names(out: &mut Vec<String>, ns: &Vec<String>)
    ensures
        strs_model(final(out)@) == strs_model(old(out)@) + strs_model(ns@),
{
    let ghost o0 = strs_model(out@);
    let mut j: usize = 0;
    while j < ns.len()
        invariant
            j <= ns@.len(),
            strs_model(out@) == o0 + strs_model(ns@).take(j as int),
        decreases ns@.len() - j,
    {
        let x = ns[j].clone();
        let ghost ov = out@;
        let ghost xv = x;
        out.push(x);
        proof {
            lemma_views_push(ov, xv);
            assert(strs_model(ns@)[j as int] == ns@[j as int]@);
        }
        assert(strs_model(out@) =~= o0 + strs_model(ns@).take(j as int + 1));
        j = j + 1;
    }
    assert(strs_model(ns@).take(ns@.len() as int) =~= strs_model(ns@));
}

fn introduced_exec(bs: &Vec<Stmt>, upto: usize) -> (r: Vec<String>)
    requires
        upto <= bs.len(),
    ensures
        strs_model(r@) == introduced(stmts_model(bs@).take(upto as int)),
{
    let ghost m = stmts_model(bs@);
    let mut out: Vec<String> = Vec::new();
    let mut j: usize = 0;
    assert(m.take(0) =~= Seq::<LStmt>::empty());
    assert(strs_model(out@) =~= Seq::<Seq<char>>::empty());
    while j < upto
        invariant
            upto <= bs@.len(),
            j <= upto,
            m == stmts_model(bs@),
            strs_model(out@) == introduced(m.take(j as int)),
        decreases upto - j,
    {
        assert(m.take(j as int + 1).drop_last() =~= m.take(j as int));
        assert(m.take(j as int + 1).last() == bs@[j as int]@);
        match &bs[j] {
            Stmt::Local(ns, _) => {
                extend_names(&mut out, ns);
            },
            _ => {
                assert(strs_model(out@) =~= introduced(m.take(j as int)) + Seq::<Seq<char>>::empty());
            },
        }
        j = j + 1;
    }
    out
}

fn value_target_ref(s: &Stmt) -> (r: Option<(bool, &String, &FuncBody)>)
    ensures
        match r {
            Some((fresh, n, body)) => value_target(s@) == Some((fresh, n@, body@)),
            None => value_target(s@) is None,
        },
{
    match s {
        Stmt::Local(ns, init) => match init {
            Some(e) => {
                if ns.len() != 1 {
                    return None;
                }
                match iife_ref(e) {
                    Some((ps, body, _)) => {
                        if ps.len() == 0 {
                            assert(strs_model(ns@)[0] == ns@[0]@);
                            Some((true, &ns[0], body))
                        } else {
                            None
                        }
                    },
                    None => None,
                }
            },
            None => None,
        },
        Stmt::Assign(l, e) => match iife_ref(e) {
            Some((ps, body, _)) => {
                if ps.len() == 0 {
                    Some((false, l, body))
                } else {
                    None
                }
            },
            None => None,
        },
        _ => None,
    }
}

/// The budget a value splice of `s` (followed by `rest`) would spend,
/// where one applies.
fn value_splice_cost(s: &Stmt, rest: &Vec<Stmt>, budget: usize) -> (r: Option<usize>)
    requires
        budget <= LOCAL_LIMIT,
    ensures
        (r is Some) == (splice_value(s@, stmts_model(rest@), budget as nat) is Some),
        r is Some ==> r.unwrap() <= budget
            && splice_value(s@, stmts_model(rest@), budget as nat).unwrap().1 == budget - r.unwrap(),
{
    let (fresh, n, body) = match value_target_ref(s) {
        Some(t) => t,
        None => {
            return None;
        },
    };
    let bs = body_ref(body);
    let ghost bm = stmts_model(bs@);
    if bs.len() == 0 {
        return None;
    }
    let last = bs.len() - 1;
    let ghost prefix = bm.drop_last();
    let mut j: usize = 0;
    while j < last
        invariant
            last == bs@.len() - 1,
            bm == stmts_model(bs@),
            prefix == bm.drop_last(),
            value_target(s@) == Some((fresh, n@, body@)),
            body_stmts(body@) == bm,
            j <= last,
            forall|k: int| 0 <= k < j ==> straight(#[trigger] prefix[k]),
        decreases last - j,
    {
        let ok = match &bs[j] {
            Stmt::Local(_, _) => true,
            Stmt::Assign(_, _) => true,
            Stmt::Expr(_) => true,
            _ => false,
        };
        assert(prefix[j as int] == bs@[j as int]@);
        assert(ok == straight(prefix[j as int]));
        if !ok {
            assert(!(forall|k: int| 0 <= k < prefix.len() ==> straight(#[trigger] prefix[k])));
            return None;
        }
        j = j + 1;
    }
    let tail = &bs[last];
    assert(bm.last() == tail@);
    let tail_if = match tail {
        Stmt::If { .. } => true,
        _ => false,
    };
    let is_ret = match tail {
        Stmt::Return(_) => true,
        _ => false,
    };
    if !is_ret && !(tail_if && tail_ok_exec(tail, !fresh)) {
        return None;
    }
    if tail_if && fresh {
        let mut t = String::new();
        crate::lua::render_block(bs, 0, &mut t);
        assert(t@ =~= block_text(bm, 0));
        if crate::tokens::str_has_token(t.as_str(), n.as_str()) {
            return None;
        }
    }
    let intro = introduced_exec(bs, last);
    assert(bm.take(last as int) =~= prefix);
    let mut rt = String::new();
    crate::lua::render_block(rest, 0, &mut rt);
    assert(rt@ =~= block_text(stmts_model(rest@), 0));
    if crate::tokens::text_mentions(rt.as_str(), &intro) {
        return None;
    }
    if intro.len() > budget {
        return None;
    }
    Some(intro.len())
}

fn take_iife_body(e: Expr) -> (r: FuncBody)
    requires
        iife_parts(e@) is Some,
    ensures
        r@ == iife_parts(e@).unwrap().1,
{
    let ghost em = e@;
    match e {
        Expr::Call(f, args) => {
            let ghost fm = (*f)@;
            assert(em == LExpr::Call(Box::new(fm), exprs_model(args@)));
            match *f {
                Expr::Paren(pf) => {
                    let ghost pfm = (*pf)@;
                    assert(fm == LExpr::Paren(Box::new(pfm)));
                    match *pf {
                        Expr::Func(ps, body) => {
                            assert(pfm == LExpr::Func(strs_model(ps@), body@));
                            body
                        },
                        _ => FuncBody::Inline(Vec::new()),
                    }
                },
                _ => FuncBody::Inline(Vec::new()),
            }
        },
        _ => FuncBody::Inline(Vec::new()),
    }
}

/// The statements a value splice puts in place of `s`.
fn build_value_splice(s: Stmt) -> (r: Vec<Stmt>)
    requires
        value_target(s@) is Some,
        body_stmts(value_target(s@).unwrap().2).len() > 0,
        body_stmts(value_target(s@).unwrap().2).last() is Return
            || body_stmts(value_target(s@).unwrap().2).last() is If,
    ensures
        stmts_model(r@) == value_result(value_target(s@).unwrap().0, value_target(s@).unwrap().1,
            body_stmts(value_target(s@).unwrap().2)),
{
    let ghost vt = value_target(s@).unwrap();
    let (fresh, n, body): (bool, String, FuncBody) = match s {
        Stmt::Local(ns, init) => {
            let ghost nsm = strs_model(ns@);
            let mut ns = ns;
            assert(nsm[0] == ns@[0]@);
            let n = ns.remove(0);
            match init {
                Some(e) => (true, n, take_iife_body(e)),
                None => (true, n, FuncBody::Inline(Vec::new())),
            }
        },
        Stmt::Assign(l, e) => (false, l, take_iife_body(e)),
        _ => (false, String::new(), FuncBody::Inline(Vec::new())),
    };
    assert(vt == (fresh, n@, body@));
    let mut bs = body_into(body);
    let ghost bm = stmts_model(bs@);
    let tail = bs.pop().unwrap();
    assert(stmts_model(bs@) =~= bm.drop_last());
    assert(tail@ == bm.last());
    match tail {
        Stmt::Return(v) => {
            let st = if fresh {
                let mut nv: Vec<String> = Vec::new();
                nv.push(n);
                assert(strs_model(nv@) =~= seq![vt.1]);
                Stmt::Local(nv, Some(v))
            } else {
                Stmt::Assign(n, v)
            };
            let ghost bv = bs@;
            bs.push(st);
            assert(stmts_model(bs@) =~= stmts_model(bv).push(st@));
            bs
        },
        other => {
            let rt = rewrite_tail_exec(other, &n);
            if fresh {
                let mut out: Vec<Stmt> = Vec::new();
                let mut nv: Vec<String> = Vec::new();
                nv.push(n);
                assert(strs_model(nv@) =~= seq![vt.1]);
                out.push(Stmt::Local(nv, None));
                let ghost pv = stmts_model(bs@);
                out.append(&mut bs);
                let ghost ov = out@;
                out.push(rt);
                assert(stmts_model(out@) =~= seq![LStmt::Local(seq![vt.1], None)] + pv.push(rt@));
                out
            } else {
                let ghost bv = bs@;
                bs.push(rt);
                assert(stmts_model(bs@) =~= stmts_model(bv).push(rt@));
                bs
            }
        },
    }
}

// ---------------------------------------------------------------------
// Computed: the pass
// ---------------------------------------------------------------------

fn fx_exec(e: Expr) -> (r: Expr)
    ensures
        r@ == fx(e@),
    decreases sz_expr(e@), 0nat,
{
    let ghost em = e@;
    match e {
        Expr::Paren(x) => Expr::Paren(Box::new(fx_exec(*x))),
        Expr::Neg(x) => Expr::Neg(Box::new(fx_exec(*x))),
        Expr::Call(f, args) => {
            let nf = fx_exec(*f);
            Expr::Call(Box::new(nf), fx_exprs_exec(args))
        },
        Expr::Method(r, m, args) => {
            let nr = fx_exec(*r);
            Expr::Method(Box::new(nr), m, fx_exprs_exec(args))
        },
        Expr::Index(x, sfx) => Expr::Index(Box::new(fx_exec(*x)), sfx),
        Expr::Binop(op, l, r) => {
            let nl = fx_exec(*l);
            let nr = fx_exec(*r);
            Expr::Binop(op, Box::new(nl), Box::new(nr))
        },
        Expr::Table(items) => Expr::Table(fx_items_exec(items)),
        Expr::TableSpaced(items) => Expr::TableSpaced(fx_items_exec(items)),
        Expr::Func(ps, body) => {
            assert(em == LExpr::Func(strs_model(ps@), body@));
            let ghost bm = body@;
            let nb = match body {
                FuncBody::Inline(ss) => {
                    assert(bm == LBody::Inline(stmts_model(ss@)));
                    assert(sz_expr(em) == 2 + strs_model(ps@).len() + sz_stmts(stmts_model(ss@)));
                    let r = flat_block_exec(ss);
                    assert(FuncBody::Inline(r)@ == LBody::Inline(stmts_model(r@)));
                    FuncBody::Inline(r)
                },
                FuncBody::Block(Block(ss)) => {
                    assert(bm == LBody::Block(stmts_model(ss@)));
                    assert(sz_expr(em) == 2 + strs_model(ps@).len() + sz_stmts(stmts_model(ss@)));
                    let r = flat_block_exec(ss);
                    assert(FuncBody::Block(Block(r))@ == LBody::Block(stmts_model(r@)));
                    FuncBody::Block(Block(r))
                },
            };
            assert(nb@ == match bm {
                LBody::Inline(ss) => LBody::Inline(flat_block(ss)),
                LBody::Block(ss) => LBody::Block(flat_block(ss)),
            });
            Expr::Func(ps, nb)
        },
        other => other,
    }
}

fn fx_exprs_exec(es: Vec<Expr>) -> (r: Vec<Expr>)
    ensures
        exprs_model(r@) == fx_exprs(exprs_model(es@)),
    decreases sz_exprs(exprs_model(es@)), 1nat,
{
    if es.len() == 0 {
        assert(exprs_model(es@) =~= Seq::<LExpr>::empty());
        return es;
    }
    let ghost m = exprs_model(es@);
    let mut es = es;
    let last = es.pop().unwrap();
    assert(exprs_model(es@) =~= m.drop_last());
    assert(last@ == m.last());
    proof {
        lemma_sz_expr_pos(m.last());
    }
    let mut front = fx_exprs_exec(es);
    let nl = fx_exec(last);
    let ghost fv = front@;
    front.push(nl);
    assert(exprs_model(front@) =~= exprs_model(fv).push(nl@));
    front
}

fn fx_items_exec(items: Vec<Item>) -> (r: Vec<Item>)
    ensures
        items_model(r@) == fx_items(items_model(items@)),
    decreases sz_items(items_model(items@)), 1nat,
{
    if items.len() == 0 {
        assert(items_model(items@) =~= Seq::<LItem>::empty());
        return items;
    }
    let ghost m = items_model(items@);
    let mut items = items;
    let last = items.pop().unwrap();
    assert(items_model(items@) =~= m.drop_last());
    assert(last@ == m.last());
    proof {
        match m.last() {
            LItem::Pos(e) => lemma_sz_expr_pos(e),
            LItem::KV(_, e) => lemma_sz_expr_pos(e),
        }
    }
    let mut front = fx_items_exec(items);
    let nl = match last {
        Item::Pos(e) => Item::Pos(fx_exec(e)),
        Item::KV(k, e) => Item::KV(k, fx_exec(e)),
    };
    let ghost fv = front@;
    front.push(nl);
    assert(items_model(front@) =~= items_model(fv).push(nl@));
    front
}

fn fx_entries_exec(es: Vec<(String, Expr)>) -> (r: Vec<(String, Expr)>)
    ensures
        entries_model(r@) == fx_entries(entries_model(es@)),
    decreases sz_entries(entries_model(es@)), 1nat,
{
    if es.len() == 0 {
        assert(entries_model(es@) =~= Seq::<(Seq<char>, LExpr)>::empty());
        return es;
    }
    let ghost m = entries_model(es@);
    let mut es = es;
    let (k, e) = es.pop().unwrap();
    assert(entries_model(es@) =~= m.drop_last());
    assert((k@, e@) == m.last());
    proof {
        lemma_sz_expr_pos(m.last().1);
    }
    let mut front = fx_entries_exec(es);
    let ne = fx_exec(e);
    let ghost fv = front@;
    front.push((k, ne));
    assert(entries_model(front@) =~= entries_model(fv).push((k@, ne@)));
    front
}

fn fx_stmt_exec(s: Stmt) -> (r: Stmt)
    ensures
        r@ == fx_stmt(s@),
    decreases sz_stmt(s@), 0nat,
{
    match s {
        Stmt::Local(ns, init) => {
            let ni = match init {
                Some(e) => Some(fx_exec(e)),
                None => None,
            };
            Stmt::Local(ns, ni)
        },
        Stmt::Assign(l, e) => Stmt::Assign(l, fx_exec(e)),
        Stmt::Return(e) => Stmt::Return(fx_exec(e)),
        Stmt::Expr(e) => Stmt::Expr(fx_exec(e)),
        Stmt::MultiAssign(ls, es) => Stmt::MultiAssign(ls, fx_exprs_exec(es)),
        Stmt::AssignIf { lhs, cond, then_e, else_e } => {
            let nc = fx_exec(cond);
            let nt = fx_exec(then_e);
            let ne = fx_exec(else_e);
            Stmt::AssignIf { lhs, cond: nc, then_e: nt, else_e: ne }
        },
        Stmt::ReturnTable(es) => Stmt::ReturnTable(fx_entries_exec(es)),
        other => other,
    }
}

fn flat_block_exec(ss: Vec<Stmt>) -> (r: Vec<Stmt>)
    ensures
        stmts_model(r@) == flat_block(stmts_model(ss@)),
    decreases sz_stmts(stmts_model(ss@)), 3nat,
{
    let c = crate::luaopt::count_locals_capped(&ss, LOCAL_LIMIT);
    let b = LOCAL_LIMIT - c;
    let (r, _) = flat_seq_exec(ss, b);
    r
}

fn flat_seq_exec(ss: Vec<Stmt>, b: usize) -> (r: (Vec<Stmt>, usize))
    requires
        b <= LOCAL_LIMIT,
    ensures
        stmts_model(r.0@) == flat_seq(stmts_model(ss@), b as nat).0,
        r.1 as nat == flat_seq(stmts_model(ss@), b as nat).1,
        r.1 <= b,
    decreases sz_stmts(stmts_model(ss@)), 2nat,
{
    let ghost m0 = stmts_model(ss@);
    let mut out: Vec<Stmt> = Vec::new();
    let mut rest = ss;
    let mut bud = b;
    assert(stmts_model(out@) =~= Seq::<LStmt>::empty());
    while rest.len() > 0
        invariant
            bud <= b,
            b <= LOCAL_LIMIT,
            m0 == stmts_model(ss@),
            sz_stmts(stmts_model(rest@)) <= sz_stmts(m0),
            flat_seq(m0, b as nat).0 == stmts_model(out@) + flat_seq(stmts_model(rest@), bud as nat).0,
            flat_seq(m0, b as nat).1 == flat_seq(stmts_model(rest@), bud as nat).1,
        decreases sz_stmts(stmts_model(rest@)),
    {
        let ghost rm = stmts_model(rest@);
        let ghost bud0 = bud;
        let cur = rest.remove(0);
        assert(stmts_model(rest@) =~= rm.drop_first());
        assert(cur@ == rm[0]);
        proof {
            lemma_sz_first(rm);
            lemma_sz_stmt_pos(rm[0]);
        }
        let mut done = false;
        if rest.len() == 0 {
            match return_splice_cost(&cur, bud) {
                Some(cost) => {
                    proof {
                        lemma_splice_return_size(rm[0], bud0 as nat);
                    }
                    let sp = build_return_splice(cur);
                    bud = bud - cost;
                    rest = sp;
                    done = true;
                    assert(stmts_model(rest@) == splice_return(rm[0], bud0 as nat).unwrap().0);
                    continue;
                },
                None => {},
            }
        }
        match value_splice_cost(&cur, &rest, bud) {
            Some(cost) => {
                let ghost tm = stmts_model(rest@);
                proof {
                    lemma_splice_value_size(rm[0], tm, bud0 as nat);
                    lemma_sz_concat(splice_value(rm[0], tm, bud0 as nat).unwrap().0, tm);
                }
                let mut sp = build_value_splice(cur);
                let ghost spm = stmts_model(sp@);
                sp.append(&mut rest);
                assert(stmts_model(sp@) =~= spm + tm);
                rest = sp;
                bud = bud - cost;
            },
            None => {
                let (s1, b1) = flat_stmt_exec(cur, bud);
                let ghost ov = stmts_model(out@);
                out.push(s1);
                assert(stmts_model(out@) =~= ov.push(s1@));
                bud = b1;
                proof {
                    let tm = stmts_model(rest@);
                    let fr = flat_seq(tm, b1 as nat);
                    assert(flat_seq(rm, bud0 as nat).0 == seq![s1@] + fr.0);
                    assert(ov + (seq![s1@] + fr.0) =~= ov.push(s1@) + fr.0);
                }
            },
        }
    }
    assert(stmts_model(out@) + Seq::<LStmt>::empty() =~= stmts_model(out@));
    (out, bud)
}

fn flat_stmt_exec(s: Stmt, b: usize) -> (r: (Stmt, usize))
    requires
        b <= LOCAL_LIMIT,
    ensures
        r.0@ == flat_stmt(s@, b as nat).0,
        r.1 as nat == flat_stmt(s@, b as nat).1,
        r.1 <= b,
    decreases sz_stmt(s@), 1nat,
{
    match s {
        Stmt::If { cond, then_b, elseifs, else_b } => {
            let (t1, b1) = flat_seq_exec(then_b.0, b);
            let (a1, b2) = flat_arms_exec(elseifs, b1);
            let c1 = fx_exec(cond);
            match else_b {
                Some(e) => {
                    let (e1, b3) = flat_seq_exec(e.0, b2);
                    (Stmt::If { cond: c1, then_b: Block(t1), elseifs: a1, else_b: Some(Block(e1)) }, b3)
                },
                None => (Stmt::If { cond: c1, then_b: Block(t1), elseifs: a1, else_b: None }, b2),
            }
        },
        Stmt::Do(x) => {
            let (x1, b1) = flat_seq_exec(x.0, b);
            (Stmt::Do(Block(x1)), b1)
        },
        Stmt::WhileTrue(x) => {
            let (x1, b1) = flat_seq_exec(x.0, b);
            (Stmt::WhileTrue(Block(x1)), b1)
        },
        Stmt::Function { target, params, body } => {
            let nb = flat_block_exec(body.0);
            (Stmt::Function { target, params, body: Block(nb) }, b)
        },
        other => (fx_stmt_exec(other), b),
    }
}

fn flat_arms_exec(arms: Vec<(Expr, Block)>, b: usize) -> (r: (Vec<(Expr, Block)>, usize))
    requires
        b <= LOCAL_LIMIT,
    ensures
        arms_model(r.0@) == flat_arms(arms_model(arms@), b as nat).0,
        r.1 as nat == flat_arms(arms_model(arms@), b as nat).1,
        r.1 <= b,
    decreases sz_arms(arms_model(arms@)), 2nat,
{
    if arms.len() == 0 {
        assert(arms_model(arms@) =~= Seq::<(LExpr, Seq<LStmt>)>::empty());
        return (arms, b);
    }
    let ghost m = arms_model(arms@);
    let mut arms = arms;
    let (c, blk) = arms.pop().unwrap();
    assert(arms_model(arms@) =~= m.drop_last());
    assert((c@, stmts_model(blk.0@)) == m.last());
    proof {
        lemma_sz_expr_pos(m.last().0);
    }
    let (front, b1) = flat_arms_exec(arms, b);
    let (nb, b2) = flat_seq_exec(blk.0, b1);
    let nc = fx_exec(c);
    let mut front = front;
    let ghost fv = front@;
    front.push((nc, Block(nb)));
    assert(arms_model(front@) =~= arms_model(fv).push((nc@, stmts_model(nb@))));
    (front, b2)
}

/// Flatten the immediately invoked function literals of the module body,
/// which is a function scope, and of every function in it.
pub fn flatten_iife(stmts: &mut Vec<Stmt>)
    ensures
        stmts_model(final(stmts)@) == flat_block(stmts_model(old(stmts)@)),
{
    let mut taken: Vec<Stmt> = Vec::new();
    std::mem::swap(&mut taken, stmts);
    let r = flat_block_exec(taken);
    *stmts = r;
}

} // verus!
