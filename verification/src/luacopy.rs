//! Deep copies of Lua trees that provably keep the model.

use vstd::prelude::*;
use crate::lua::{Expr, Item, FuncBody, Stmt, Block, LExpr, LBody, LItem, stmts_model, exprs_model, items_model,
    arms_model, entries_model};
use crate::tailloop::{copy_strings, copy_target};

verus! {

pub fn copy_expr(e: &Expr) -> (r: Expr)
    ensures
        r@ == e@,
    decreases e,
{
    match e {
        Expr::Name(s) => Expr::Name(s.clone()),
        Expr::Lit(s) => Expr::Lit(s.clone()),
        Expr::Raw(s) => Expr::Raw(s.clone()),
        Expr::Paren(b) => Expr::Paren(Box::new(copy_expr(b))),
        Expr::Neg(b) => Expr::Neg(Box::new(copy_expr(b))),
        Expr::Index(b, suf) => Expr::Index(Box::new(copy_expr(b)), suf.clone()),
        Expr::Call(f, args) => Expr::Call(Box::new(copy_expr(f)), copy_exprs(args)),
        Expr::Method(r, m, args) => Expr::Method(Box::new(copy_expr(r)), m.clone(), copy_exprs(args)),
        Expr::Binop(op, l, r) => Expr::Binop(op.clone(), Box::new(copy_expr(l)), Box::new(copy_expr(r))),
        Expr::Table(items) => Expr::Table(copy_items(items)),
        Expr::TableSpaced(items) => Expr::TableSpaced(copy_items(items)),
        Expr::Func(ps, body) => {
            let nb = match body {
                FuncBody::Inline(ss) => {
                    let v = copy_stmts(ss);
                    let nb = FuncBody::Inline(v);
                    assert(nb@ == LBody::Inline(stmts_model(v@)));
                    assert(body@ == LBody::Inline(stmts_model(ss@)));
                    nb
                },
                FuncBody::Block(Block(ss)) => {
                    let v = copy_stmts(ss);
                    let nb = FuncBody::Block(Block(v));
                    assert(nb@ == LBody::Block(stmts_model(v@)));
                    assert(body@ == LBody::Block(stmts_model(ss@)));
                    nb
                },
            };
            Expr::Func(copy_strings(ps), nb)
        },
    }
}

pub fn copy_exprs(es: &Vec<Expr>) -> (r: Vec<Expr>)
    ensures
        exprs_model(r@) == exprs_model(es@),
    decreases es,
{
    let mut out: Vec<Expr> = Vec::new();
    let mut i: usize = 0;
    while i < es.len()
        invariant
            i <= es@.len(),
            out@.len() == i,
            forall|j: int| 0 <= j < i ==> #[trigger] out@[j]@ == es@[j]@,
        decreases es@.len() - i,
    {
        assert(decreases_to!(es => es@[i as int]));
        out.push(copy_expr(&es[i]));
        i = i + 1;
    }
    proof {
        assert forall|j: int| 0 <= j < exprs_model(out@).len() implies exprs_model(out@)[j] == exprs_model(es@)[j] by {
            assert(exprs_model(out@)[j] == out@[j]@);
            assert(exprs_model(es@)[j] == es@[j]@);
        }
        assert(exprs_model(out@) =~= exprs_model(es@));
    }
    out
}

fn copy_items(its: &Vec<Item>) -> (r: Vec<Item>)
    ensures
        items_model(r@) == items_model(its@),
    decreases its,
{
    let mut out: Vec<Item> = Vec::new();
    let mut i: usize = 0;
    while i < its.len()
        invariant
            i <= its@.len(),
            out@.len() == i,
            forall|j: int| 0 <= j < i ==> #[trigger] out@[j]@ == its@[j]@,
        decreases its@.len() - i,
    {
        assert(decreases_to!(its => its@[i as int]));
        let it = match &its[i] {
            Item::Pos(e) => Item::Pos(copy_expr(e)),
            Item::KV(k, e) => Item::KV(k.clone(), copy_expr(e)),
        };
        out.push(it);
        i = i + 1;
    }
    proof {
        assert forall|j: int| 0 <= j < items_model(out@).len() implies items_model(out@)[j] == items_model(its@)[j] by {
            assert(items_model(out@)[j] == out@[j]@);
            assert(items_model(its@)[j] == its@[j]@);
        }
        assert(items_model(out@) =~= items_model(its@));
    }
    out
}

pub fn copy_stmt(s: &Stmt) -> (r: Stmt)
    ensures
        r@ == s@,
    decreases s,
{
    match s {
        Stmt::Raw(t) => Stmt::Raw(t.clone()),
        Stmt::Local(ns, init) => {
            let ni = match init {
                Some(e) => Some(copy_expr(e)),
                None => None,
            };
            Stmt::Local(copy_strings(ns), ni)
        },
        Stmt::Assign(l, e) => Stmt::Assign(l.clone(), copy_expr(e)),
        Stmt::Return(e) => Stmt::Return(copy_expr(e)),
        Stmt::Expr(e) => Stmt::Expr(copy_expr(e)),
        Stmt::If { cond, then_b, elseifs, else_b } => {
            let eb = match else_b {
                Some(b) => Some(Block(copy_stmts(&b.0))),
                None => None,
            };
            Stmt::If { cond: copy_expr(cond), then_b: Block(copy_stmts(&then_b.0)), elseifs: copy_arms(elseifs), else_b: eb }
        },
        Stmt::AssignIf { lhs, cond, then_e, else_e } => Stmt::AssignIf {
            lhs: lhs.clone(),
            cond: copy_expr(cond),
            then_e: copy_expr(then_e),
            else_e: copy_expr(else_e),
        },
        Stmt::Do(b) => Stmt::Do(Block(copy_stmts(&b.0))),
        Stmt::WhileTrue(b) => Stmt::WhileTrue(Block(copy_stmts(&b.0))),
        Stmt::MultiAssign(ls, es) => Stmt::MultiAssign(copy_strings(ls), copy_exprs(es)),
        Stmt::ReturnNone => Stmt::ReturnNone,
        Stmt::Goto(l) => Stmt::Goto(l.clone()),
        Stmt::Label(l) => Stmt::Label(l.clone()),
        Stmt::Function { target, params, body } => Stmt::Function {
            target: copy_target(target),
            params: copy_strings(params),
            body: Block(copy_stmts(&body.0)),
        },
        Stmt::ReturnTable(es) => Stmt::ReturnTable(copy_entries(es)),
    }
}

pub fn copy_stmts(ss: &Vec<Stmt>) -> (r: Vec<Stmt>)
    ensures
        stmts_model(r@) == stmts_model(ss@),
    decreases ss,
{
    let mut out: Vec<Stmt> = Vec::new();
    let mut i: usize = 0;
    while i < ss.len()
        invariant
            i <= ss@.len(),
            out@.len() == i,
            forall|j: int| 0 <= j < i ==> #[trigger] out@[j]@ == ss@[j]@,
        decreases ss@.len() - i,
    {
        assert(decreases_to!(ss => ss@[i as int]));
        out.push(copy_stmt(&ss[i]));
        i = i + 1;
    }
    proof {
        assert forall|j: int| 0 <= j < stmts_model(out@).len() implies stmts_model(out@)[j] == stmts_model(ss@)[j] by {
            assert(stmts_model(out@)[j] == out@[j]@);
            assert(stmts_model(ss@)[j] == ss@[j]@);
        }
        assert(stmts_model(out@) =~= stmts_model(ss@));
    }
    out
}

fn copy_arms(arms: &Vec<(Expr, Block)>) -> (r: Vec<(Expr, Block)>)
    ensures
        arms_model(r@) == arms_model(arms@),
    decreases arms,
{
    let mut out: Vec<(Expr, Block)> = Vec::new();
    let mut i: usize = 0;
    while i < arms.len()
        invariant
            i <= arms@.len(),
            out@.len() == i,
            forall|j: int| 0 <= j < i ==> #[trigger] arms_model(out@)[j] == arms_model(arms@)[j],
        decreases arms@.len() - i,
    {
        assert(decreases_to!(arms => arms@[i as int]));
        let c = copy_expr(&arms[i].0);
        let b = copy_stmts(&arms[i].1.0);
        let ghost old_out = out@;
        out.push((c, Block(b)));
        proof {
            assert forall|j: int| 0 <= j < i + 1 implies #[trigger] arms_model(out@)[j] == arms_model(arms@)[j] by {
                if j < i {
                    assert(arms_model(out@)[j] == arms_model(old_out)[j]);
                }
            }
        }
        i = i + 1;
    }
    assert(arms_model(out@) =~= arms_model(arms@));
    out
}

fn copy_entries(es: &Vec<(String, Expr)>) -> (r: Vec<(String, Expr)>)
    ensures
        entries_model(r@) == entries_model(es@),
    decreases es,
{
    let mut out: Vec<(String, Expr)> = Vec::new();
    let mut i: usize = 0;
    while i < es.len()
        invariant
            i <= es@.len(),
            out@.len() == i,
            forall|j: int| 0 <= j < i ==> #[trigger] entries_model(out@)[j] == entries_model(es@)[j],
        decreases es@.len() - i,
    {
        assert(decreases_to!(es => es@[i as int]));
        let v = copy_expr(&es[i].1);
        let ghost old_out = out@;
        out.push((es[i].0.clone(), v));
        proof {
            assert forall|j: int| 0 <= j < i + 1 implies #[trigger] entries_model(out@)[j] == entries_model(es@)[j] by {
                if j < i {
                    assert(entries_model(out@)[j] == entries_model(old_out)[j]);
                }
            }
        }
        i = i + 1;
    }
    assert(entries_model(out@) =~= entries_model(es@));
    out
}

} // verus!
