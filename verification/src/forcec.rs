//! The `__force` collapse: `__force(e)` becomes `e` where `e` is already
//! in head normal form, since forcing a value that is no suspension is the
//! identity and `e` is still evaluated once, in place.
//!
//! An expression is known to be in head normal form when it is a literal,
//! a `__force(…)` call, a parenthesised such expression, or a name bound
//! by `local x = e` with `e` in head normal form where the rest of that
//! block (nested blocks and function bodies included) never binds, assigns
//! or stores to `x` and no raw text mentions it. Such a name keeps its
//! value for every later statement of the block.

use vstd::prelude::*;
use crate::lua::{Expr, Item, FuncBody, Stmt, Block, LExpr, LItem, LBody, LStmt,
    stmts_model, exprs_model, items_model, arms_model, entries_model};
use crate::census::{cen_stmts, census_stmts, capped};
use crate::demand::NameSet;
use crate::text::str_eq;

verus! {

broadcast use vstd::string::group_string_axioms;

// ---------------------------------------------------------------------
// Specification
// ---------------------------------------------------------------------

/// `__force(a)`: its one argument.
pub open spec fn forced_arg(e: LExpr) -> Option<LExpr> {
    match e {
        LExpr::Call(g, args) => if *g == LExpr::Name("__force"@) && args.len() == 1 { Some(args[0]) } else { None },
        _ => None,
    }
}

/// `e` is known to be in head normal form, the names of `facts` being so.
pub open spec fn whnf(e: LExpr, facts: Set<Seq<char>>) -> bool
    decreases e,
{
    match e {
        LExpr::Lit(_) => true,
        LExpr::Name(n) => facts.contains(n),
        LExpr::Paren(b) => whnf(*b, facts),
        _ => forced_arg(e) is Some,
    }
}

/// A rewritten node: a force of a head normal form is its argument.
pub open spec fn collapse(e: LExpr, facts: Set<Seq<char>>) -> LExpr {
    match forced_arg(e) {
        Some(a) => if whnf(a, facts) { a } else { e },
        None => e,
    }
}

pub open spec fn fc_expr(e: LExpr, f: Set<Seq<char>>) -> LExpr
    decreases e, 0nat,
{
    match e {
        LExpr::Paren(b) => LExpr::Paren(Box::new(fc_expr(*b, f))),
        LExpr::Neg(b) => LExpr::Neg(Box::new(fc_expr(*b, f))),
        LExpr::Call(g, args) => collapse(LExpr::Call(Box::new(fc_expr(*g, f)), fc_exprs(args, f)), f),
        LExpr::Method(r, m, args) => LExpr::Method(Box::new(fc_expr(*r, f)), m, fc_exprs(args, f)),
        LExpr::Index(b, s) => LExpr::Index(Box::new(fc_expr(*b, f)), s),
        LExpr::Binop(op, l, r) => LExpr::Binop(op, Box::new(fc_expr(*l, f)), Box::new(fc_expr(*r, f))),
        LExpr::Table(items) => LExpr::Table(fc_items(items, f)),
        LExpr::TableSpaced(items) => LExpr::TableSpaced(fc_items(items, f)),
        LExpr::Func(ps, body) => LExpr::Func(ps, fc_body(body, f)),
        _ => e,
    }
}

pub open spec fn fc_exprs(es: Seq<LExpr>, f: Set<Seq<char>>) -> Seq<LExpr>
    decreases es, 0nat,
{
    Seq::new(es.len(), |i: int| if 0 <= i < es.len() { fc_expr(es[i], f) } else { LExpr::Name(Seq::empty()) })
}

pub open spec fn fc_items(items: Seq<LItem>, f: Set<Seq<char>>) -> Seq<LItem>
    decreases items, 0nat,
{
    Seq::new(items.len(), |i: int| if 0 <= i < items.len() {
        match items[i] {
            LItem::Pos(e) => LItem::Pos(fc_expr(e, f)),
            LItem::KV(k, e) => LItem::KV(k, fc_expr(e, f)),
        }
    } else {
        LItem::Pos(LExpr::Name(Seq::empty()))
    })
}

pub open spec fn fc_body(b: LBody, f: Set<Seq<char>>) -> LBody
    decreases b, 0nat,
{
    match b {
        LBody::Inline(ss) => LBody::Inline(fc_block(ss, f)),
        LBody::Block(ss) => LBody::Block(fc_block(ss, f)),
    }
}

/// The facts after a rewritten statement `s` followed by `rest`: a
/// `local x = e` with `e` in head normal form adds `x` when `rest` leaves
/// `x` alone.
pub open spec fn after(s: LStmt, rest: Seq<LStmt>, f: Set<Seq<char>>) -> Set<Seq<char>> {
    match s {
        LStmt::Local(ns, Some(e)) => if ns.len() == 1 && whnf(e, f) && cen_stmts(rest, ns[0]) == (0nat, 0nat, 0nat, false) {
            f.insert(ns[0])
        } else {
            f
        },
        _ => f,
    }
}

/// The statements of a block in order, each under the facts its earlier
/// statements establish.
pub open spec fn fc_block(ss: Seq<LStmt>, f: Set<Seq<char>>) -> Seq<LStmt>
    decreases ss, 1nat,
{
    if ss.len() == 0 {
        Seq::empty()
    } else {
        let s = fc_stmt(ss[0], f);
        seq![s] + fc_block(ss.drop_first(), after(s, ss.drop_first(), f))
    }
}

pub open spec fn fc_stmt(s: LStmt, f: Set<Seq<char>>) -> LStmt
    decreases s, 0nat,
{
    match s {
        LStmt::Local(ns, init) => LStmt::Local(ns, match init {
            Some(e) => Some(fc_expr(e, f)),
            None => None,
        }),
        LStmt::Assign(l, e) => LStmt::Assign(l, fc_expr(e, f)),
        LStmt::Return(e) => LStmt::Return(fc_expr(e, f)),
        LStmt::Expr(e) => LStmt::Expr(fc_expr(e, f)),
        LStmt::MultiAssign(ls, es) => LStmt::MultiAssign(ls, fc_exprs(es, f)),
        LStmt::AssignIf(l, c, t, e) => LStmt::AssignIf(l, fc_expr(c, f), fc_expr(t, f), fc_expr(e, f)),
        LStmt::Do(b) => LStmt::Do(fc_block(b, f)),
        LStmt::WhileTrue(b) => LStmt::WhileTrue(fc_block(b, f)),
        LStmt::Function(t, ps, b) => LStmt::Function(t, ps, fc_block(b, f)),
        LStmt::ReturnTable(es) => LStmt::ReturnTable(fc_entries(es, f)),
        LStmt::If(c, t, arms, els) => LStmt::If(fc_expr(c, f), fc_block(t, f), fc_arms(arms, f), match els {
            Some(b) => Some(fc_block(b, f)),
            None => None,
        }),
        _ => s,
    }
}

pub open spec fn fc_arms(arms: Seq<(LExpr, Seq<LStmt>)>, f: Set<Seq<char>>) -> Seq<(LExpr, Seq<LStmt>)>
    decreases arms, 0nat,
{
    Seq::new(arms.len(), |i: int| if 0 <= i < arms.len() {
        (fc_expr(arms[i].0, f), fc_block(arms[i].1, f))
    } else {
        (LExpr::Name(Seq::empty()), Seq::empty())
    })
}

pub open spec fn fc_entries(es: Seq<(Seq<char>, LExpr)>, f: Set<Seq<char>>) -> Seq<(Seq<char>, LExpr)>
    decreases es, 0nat,
{
    Seq::new(es.len(), |i: int| if 0 <= i < es.len() {
        (es[i].0, fc_expr(es[i].1, f))
    } else {
        (Seq::empty(), LExpr::Name(Seq::empty()))
    })
}

/// The collapse over a module body, with no facts to start from.
pub open spec fn force_collapse_spec(ss: Seq<LStmt>) -> Seq<LStmt> {
    fc_block(ss, Set::empty())
}

// ---------------------------------------------------------------------
// Computed
// ---------------------------------------------------------------------

fn whnf_exec(e: &Expr, f: &NameSet) -> (r: bool)
    ensures
        r == whnf(e@, f@),
    decreases e,
{
    match e {
        Expr::Lit(_) => true,
        Expr::Name(n) => f.contains(n.as_str()),
        Expr::Paren(b) => whnf_exec(b, f),
        _ => forced_arg_ref(e).is_some(),
    }
}

fn forced_arg_ref(e: &Expr) -> (r: Option<&Expr>)
    ensures
        match r {
            Some(a) => forced_arg(e@) == Some(a@),
            None => forced_arg(e@) is None,
        },
{
    match e {
        Expr::Call(g, args) => {
            let is_force = match &**g {
                Expr::Name(n) => {
                    let b = str_eq(n.as_str(), "__force");
                    assert(b ==> g@ == LExpr::Name("__force"@));
                    b
                },
                _ => false,
            };
            proof {
                if g@ == LExpr::Name("__force"@) {
                    assert(is_force);
                }
            }
            if is_force && args.len() == 1 {
                assert(e@ == LExpr::Call(Box::new(g@), exprs_model(args@)));
                assert(exprs_model(args@)[0] == args@[0]@);
                assert(exprs_model(args@).len() == 1);
                Some(&args[0])
            } else {
                None
            }
        },
        _ => None,
    }
}

fn collapse_exec(e: Expr, f: &NameSet) -> (r: Expr)
    ensures
        r@ == collapse(e@, f@),
{
    let ok = match forced_arg_ref(&e) {
        Some(a) => whnf_exec(a, f),
        None => false,
    };
    if ok {
        match e {
            Expr::Call(_, mut args) => {
                assert(exprs_model(args@)[0] == args@[0]@);
                args.swap_remove(0)
            },
            other => other,
        }
    } else {
        e
    }
}

fn fc_expr_exec(e: Expr, f: &NameSet) -> (r: Expr)
    ensures
        r@ == fc_expr(e@, f@),
    decreases e,
{
    match e {
        Expr::Paren(b) => Expr::Paren(Box::new(fc_expr_exec(*b, f))),
        Expr::Neg(b) => Expr::Neg(Box::new(fc_expr_exec(*b, f))),
        Expr::Call(g, args) => {
            let ng = fc_expr_exec(*g, f);
            let na = fc_exprs_exec(args, f);
            collapse_exec(Expr::Call(Box::new(ng), na), f)
        },
        Expr::Method(r, m, args) => {
            let nr = fc_expr_exec(*r, f);
            Expr::Method(Box::new(nr), m, fc_exprs_exec(args, f))
        },
        Expr::Index(b, sfx) => Expr::Index(Box::new(fc_expr_exec(*b, f)), sfx),
        Expr::Binop(op, l, r) => {
            let nl = fc_expr_exec(*l, f);
            let nr = fc_expr_exec(*r, f);
            Expr::Binop(op, Box::new(nl), Box::new(nr))
        },
        Expr::Table(items) => Expr::Table(fc_items_exec(items, f)),
        Expr::TableSpaced(items) => Expr::TableSpaced(fc_items_exec(items, f)),
        Expr::Func(ps, body) => Expr::Func(ps, fc_body_exec(body, f)),
        other => other,
    }
}

fn fc_body_exec(b: FuncBody, f: &NameSet) -> (r: FuncBody)
    ensures
        r@ == fc_body(b@, f@),
    decreases b,
{
    match b {
        FuncBody::Inline(ss) => FuncBody::Inline(fc_block_exec(ss, f)),
        FuncBody::Block(Block(ss)) => FuncBody::Block(Block(fc_block_exec(ss, f))),
    }
}

/// The facts after statement `s` (already rewritten) when `rest` follows.
fn after_exec(s: &Stmt, rest: &Vec<Stmt>, f: &NameSet) -> (r: NameSet)
    ensures
        r@ == after(s@, stmts_model(rest@), f@),
{
    let mut g = NameSet::new();
    g.union_with(f);
    assert(g@ =~= f@);
    match s {
        Stmt::Local(ns, Some(e)) => {
            if ns.len() == 1 && whnf_exec(e, f) {
                let c = census_stmts(rest, ns[0].as_str());
                assert(crate::lua::strs_model(ns@)[0] == ns@[0]@);
                if c.binds == 0 && c.assigns == 0 && c.stores == 0 && !c.raw {
                    g.insert(ns[0].as_str());
                }
            }
        },
        _ => {},
    }
    g
}

proof fn lemma_block_step(om: Seq<LStmt>, sk: Seq<LStmt>, f: Set<Seq<char>>, ns: LStmt, nf: Set<Seq<char>>)
    requires
        sk.len() > 0,
        ns == fc_stmt(sk[0], f),
        nf == after(ns, sk.drop_first(), f),
    ensures
        om.push(ns) + fc_block(sk.drop_first(), nf) == om + fc_block(sk, f),
{
    assert(fc_block(sk, f) == seq![ns] + fc_block(sk.drop_first(), nf));
    assert(om.push(ns) + fc_block(sk.drop_first(), nf) =~= om + (seq![ns] + fc_block(sk.drop_first(), nf)));
}

fn fc_block_exec(ss: Vec<Stmt>, f: &NameSet) -> (r: Vec<Stmt>)
    ensures
        stmts_model(r@) == fc_block(stmts_model(ss@), f@),
    decreases ss,
{
    let ghost s0 = stmts_model(ss@);
    let ghost v0 = ss@;
    let len = ss.len();
    let mut rest = ss;
    let mut out: Vec<Stmt> = Vec::new();
    let mut facts = NameSet::new();
    facts.union_with(f);
    assert(facts@ =~= f@);
    let mut i: usize = 0;
    assert(s0.skip(0) =~= s0);
    while rest.len() > 0
        invariant
            len == v0.len(),
            ss@ == v0,
            s0 == stmts_model(v0),
            i <= len,
            rest@ == v0.skip(i as int),
            stmts_model(out@) + fc_block(s0.skip(i as int), facts@) == fc_block(s0, f@),
        decreases rest@.len(),
    {
        assert(v0.skip(i as int).len() > 0);
        let st = rest.remove(0);
        assert(v0[i as int] == st);
        assert(decreases_to!(ss => ss@[i as int]));
        let ghost sk = s0.skip(i as int);
        assert(sk[0] == st@);
        assert(rest@ =~= v0.skip(i as int + 1));
        assert(stmts_model(rest@) =~= sk.drop_first());
        let ns = fc_stmt_exec(st, &facts);
        let nf = after_exec(&ns, &rest, &facts);
        let ghost om = stmts_model(out@);
        let ghost nsm = ns@;
        out.push(ns);
        proof {
            assert(stmts_model(out@) =~= om.push(nsm));
            assert(s0.skip(i as int + 1) =~= sk.drop_first());
            lemma_block_step(om, sk, facts@, nsm, nf@);
        }
        facts = nf;
        i = i + 1;
    }
    assert(s0.skip(len as int) =~= Seq::<LStmt>::empty());
    out
}

fn fc_stmt_exec(s: Stmt, f: &NameSet) -> (r: Stmt)
    ensures
        r@ == fc_stmt(s@, f@),
    decreases s,
{
    match s {
        Stmt::Local(ns, init) => {
            let ni = match init {
                Some(e) => Some(fc_expr_exec(e, f)),
                None => None,
            };
            Stmt::Local(ns, ni)
        },
        Stmt::Assign(l, e) => Stmt::Assign(l, fc_expr_exec(e, f)),
        Stmt::Return(e) => Stmt::Return(fc_expr_exec(e, f)),
        Stmt::Expr(e) => Stmt::Expr(fc_expr_exec(e, f)),
        Stmt::MultiAssign(ls, es) => Stmt::MultiAssign(ls, fc_exprs_exec(es, f)),
        Stmt::AssignIf { lhs, cond, then_e, else_e } => {
            let nc = fc_expr_exec(cond, f);
            let nt = fc_expr_exec(then_e, f);
            let ne = fc_expr_exec(else_e, f);
            Stmt::AssignIf { lhs, cond: nc, then_e: nt, else_e: ne }
        },
        Stmt::Do(b) => Stmt::Do(Block(fc_block_exec(b.0, f))),
        Stmt::WhileTrue(b) => Stmt::WhileTrue(Block(fc_block_exec(b.0, f))),
        Stmt::Function { target, params, body } => Stmt::Function { target, params, body: Block(fc_block_exec(body.0, f)) },
        Stmt::ReturnTable(es) => Stmt::ReturnTable(fc_entries_exec(es, f)),
        Stmt::If { cond, then_b, elseifs, else_b } => {
            let nc = fc_expr_exec(cond, f);
            let nt = fc_block_exec(then_b.0, f);
            let na = fc_arms_exec(elseifs, f);
            let ne = match else_b {
                Some(b) => Some(Block(fc_block_exec(b.0, f))),
                None => None,
            };
            Stmt::If { cond: nc, then_b: Block(nt), elseifs: na, else_b: ne }
        },
        other => other,
    }
}

fn fc_exprs_exec(args: Vec<Expr>, f: &NameSet) -> (r: Vec<Expr>)
    ensures
        exprs_model(r@) == fc_exprs(exprs_model(args@), f@),
    decreases args,
{
    let ghost a0 = args@;
    let len = args.len();
    let mut rest = args;
    let mut out: Vec<Expr> = Vec::new();
    let mut i: usize = 0;
    while rest.len() > 0
        invariant
            len == a0.len(),
            args@ == a0,
            i <= len,
            rest@ == a0.skip(i as int),
            out@.len() == i,
            forall|j: int| 0 <= j < i ==> #[trigger] out@[j]@ == fc_expr(a0[j]@, f@),
        decreases rest@.len(),
    {
        assert(a0.skip(i as int).len() > 0);
        let x = rest.remove(0);
        assert(a0[i as int] == x);
        assert(decreases_to!(args => args@[i as int]));
        out.push(fc_expr_exec(x, f));
        assert(rest@ =~= a0.skip(i as int + 1));
        i = i + 1;
    }
    proof {
        let a = exprs_model(out@);
        let b = fc_exprs(exprs_model(a0), f@);
        assert forall|j: int| 0 <= j < a.len() implies a[j] == b[j] by {
            assert(a[j] == out@[j]@);
            assert(exprs_model(a0)[j] == a0[j]@);
        }
        assert(a =~= b);
    }
    out
}

fn fc_items_exec(items: Vec<Item>, f: &NameSet) -> (r: Vec<Item>)
    ensures
        items_model(r@) == fc_items(items_model(items@), f@),
    decreases items,
{
    let ghost a0 = items@;
    let len = items.len();
    let mut rest = items;
    let mut out: Vec<Item> = Vec::new();
    let mut i: usize = 0;
    while rest.len() > 0
        invariant
            len == a0.len(),
            items@ == a0,
            i <= len,
            rest@ == a0.skip(i as int),
            out@.len() == i,
            forall|j: int| 0 <= j < i ==> #[trigger] out@[j]@ == fc_items(items_model(a0), f@)[j],
        decreases rest@.len(),
    {
        assert(a0.skip(i as int).len() > 0);
        let x = rest.remove(0);
        assert(a0[i as int] == x);
        assert(items_model(a0)[i as int] == x@);
        assert(decreases_to!(items => items@[i as int]));
        let nx = match x {
            Item::Pos(e) => Item::Pos(fc_expr_exec(e, f)),
            Item::KV(k, e) => Item::KV(k, fc_expr_exec(e, f)),
        };
        out.push(nx);
        assert(rest@ =~= a0.skip(i as int + 1));
        i = i + 1;
    }
    proof {
        let a = items_model(out@);
        let b = fc_items(items_model(a0), f@);
        assert forall|j: int| 0 <= j < a.len() implies a[j] == b[j] by {
            assert(a[j] == out@[j]@);
        }
        assert(a =~= b);
    }
    out
}

#[verifier::rlimit(50)]
fn fc_arms_exec(arms: Vec<(Expr, Block)>, f: &NameSet) -> (r: Vec<(Expr, Block)>)
    ensures
        arms_model(r@) == fc_arms(arms_model(arms@), f@),
    decreases arms,
{
    let ghost a0 = arms@;
    let ghost am = arms_model(arms@);
    let len = arms.len();
    let mut rest = arms;
    let mut out: Vec<(Expr, Block)> = Vec::new();
    let mut i: usize = 0;
    while rest.len() > 0
        invariant
            len == a0.len(),
            arms@ == a0,
            am == arms_model(a0),
            i <= len,
            rest@ == a0.skip(i as int),
            out@.len() == i,
            forall|j: int| 0 <= j < i ==> #[trigger] arms_model(out@)[j] == fc_arms(am, f@)[j],
        decreases rest@.len(),
    {
        assert(a0.skip(i as int).len() > 0);
        let (c, b) = rest.remove(0);
        assert(a0[i as int] == (c, b));
        assert(decreases_to!(arms => arms@[i as int]));
        let nc = fc_expr_exec(c, f);
        let nb = fc_block_exec(b.0, f);
        let ghost old_out = out@;
        out.push((nc, Block(nb)));
        proof {
            assert forall|j: int| 0 <= j < i + 1 implies #[trigger] arms_model(out@)[j] == fc_arms(am, f@)[j] by {
                if j < i {
                    assert(arms_model(out@)[j] == arms_model(old_out)[j]);
                }
            }
        }
        assert(rest@ =~= a0.skip(i as int + 1));
        i = i + 1;
    }
    assert(arms_model(out@) =~= fc_arms(am, f@));
    out
}

fn fc_entries_exec(es: Vec<(String, Expr)>, f: &NameSet) -> (r: Vec<(String, Expr)>)
    ensures
        entries_model(r@) == fc_entries(entries_model(es@), f@),
    decreases es,
{
    let ghost a0 = es@;
    let ghost am = entries_model(es@);
    let len = es.len();
    let mut rest = es;
    let mut out: Vec<(String, Expr)> = Vec::new();
    let mut i: usize = 0;
    while rest.len() > 0
        invariant
            len == a0.len(),
            es@ == a0,
            am == entries_model(a0),
            i <= len,
            rest@ == a0.skip(i as int),
            out@.len() == i,
            forall|j: int| 0 <= j < i ==> #[trigger] entries_model(out@)[j] == fc_entries(am, f@)[j],
        decreases rest@.len(),
    {
        assert(a0.skip(i as int).len() > 0);
        let (k, e) = rest.remove(0);
        assert(a0[i as int] == (k, e));
        assert(decreases_to!(es => es@[i as int]));
        let ne = fc_expr_exec(e, f);
        let ghost old_out = out@;
        out.push((k, ne));
        proof {
            assert forall|j: int| 0 <= j < i + 1 implies #[trigger] entries_model(out@)[j] == fc_entries(am, f@)[j] by {
                if j < i {
                    assert(entries_model(out@)[j] == entries_model(old_out)[j]);
                }
            }
        }
        assert(rest@ =~= a0.skip(i as int + 1));
        i = i + 1;
    }
    assert(entries_model(out@) =~= fc_entries(am, f@));
    out
}

/// Collapse every `__force` of a head normal form in the module body.
pub fn force_collapse(stmts: &mut Vec<Stmt>)
    ensures
        stmts_model(final(stmts)@) == force_collapse_spec(stmts_model(old(stmts)@)),
{
    let mut taken: Vec<Stmt> = Vec::new();
    std::mem::swap(&mut taken, stmts);
    let f = NameSet::new();
    let r = fc_block_exec(taken, &f);
    *stmts = r;
}

} // verus!
