//! Paren normalization over the finished statement list.
//!
//! Grouping in the emitted tree is explicit (`Paren` nodes), so emission
//! sites wrap defensively. A `Paren` is dropped exactly where the
//! enclosing position proves it redundant:
//!
//! * `Grouped` (an operand, or the child of a kept paren): only a
//!   self-delimiting child (name, literal, index, paren) sheds;
//! * `Delim` (a condition, a single-value right-hand side, a non-last
//!   argument, a keyed table value, a statement expression): anything but
//!   raw text sheds, since the position truncates to one value itself;
//! * `DelimLast` (a return operand, a last argument, a last table item, a
//!   multi-value right-hand side): as `Delim`, except that a call sheds
//!   only when its callee provably returns one value and a method call
//!   never does;
//! * `Prefix` (a callee, a method receiver, an index base): only
//!   prefix-expression shapes (name, index, paren, call, method call).
//!
//! A thunk body's returns have exactly one consumer, which truncates, so
//! they are `Delim` positions; a function body's returns are `DelimLast`.
//! Raw text is never rewritten and a paren around it is never dropped.

use vstd::prelude::*;
use crate::lua::{Expr, Item, FuncBody, Stmt, Block, LExpr, LItem, LBody, LStmt,
    strs_model, stmts_model, exprs_model, items_model, arms_model, entries_model};
use crate::luaopt::{single_return_callee, single_return_callee_exec};
use crate::loopcore::is_name;

verus! {

broadcast use vstd::string::group_string_axioms;

/// What the position around an expression proves about a paren there.
#[derive(Clone, Copy, PartialEq, Eq, Structural)]
pub enum Ctx {
    Grouped,
    Delim,
    DelimLast,
    Prefix,
}

/// May a paren around `inner` be dropped at a `ctx` position?
pub open spec fn redundant(inner: LExpr, ctx: Ctx) -> bool {
    match ctx {
        Ctx::Grouped => inner is Name || inner is Lit || inner is Index || inner is Paren,
        Ctx::Delim => !(inner is Raw),
        Ctx::DelimLast => match inner {
            LExpr::Raw(_) => false,
            LExpr::Method(_, _, _) => false,
            LExpr::Call(f, _) => single_return_callee(*f),
            _ => true,
        },
        Ctx::Prefix => inner is Name || inner is Index || inner is Paren || inner is Call || inner is Method,
    }
}

/// `__thunk(function(…) … end)`: a thunk construction.
pub open spec fn thunk_call(e: LExpr) -> bool {
    match e {
        LExpr::Call(f, args) => is_name(*f, "__thunk"@) && args.len() == 1 && args[0] is Func,
        _ => false,
    }
}

/// The context of argument `i` of `n`.
pub open spec fn arg_ctx(i: int, n: int) -> Ctx {
    if i == n - 1 { Ctx::DelimLast } else { Ctx::Delim }
}

pub open spec fn norm_expr(e: LExpr, ctx: Ctx) -> LExpr
    decreases e,
{
    match e {
        LExpr::Paren(b) => if redundant(*b, ctx) {
            norm_expr(*b, ctx)
        } else {
            LExpr::Paren(Box::new(norm_expr(*b, Ctx::Grouped)))
        },
        LExpr::Name(_) => e,
        LExpr::Lit(_) => e,
        LExpr::Raw(_) => e,
        LExpr::Call(f, args) => if is_name(*f, "__thunk"@) && args.len() == 1 && args[0] is Func {
            match args[0] {
                LExpr::Func(ps, body) => LExpr::Call(f, seq![LExpr::Func(ps, norm_body(body, Ctx::Delim))]),
                _ => e,
            }
        } else {
            LExpr::Call(Box::new(norm_expr(*f, Ctx::Prefix)), norm_args(args))
        },
        LExpr::Method(r, m, args) => LExpr::Method(Box::new(norm_expr(*r, Ctx::Prefix)), m, norm_args(args)),
        LExpr::Index(b, s) => LExpr::Index(Box::new(norm_expr(*b, Ctx::Prefix)), s),
        LExpr::Binop(op, l, r) => LExpr::Binop(op, Box::new(norm_expr(*l, Ctx::Grouped)), Box::new(norm_expr(*r, Ctx::Grouped))),
        LExpr::Neg(b) => LExpr::Neg(Box::new(norm_expr(*b, Ctx::Grouped))),
        LExpr::Table(items) => LExpr::Table(norm_items(items)),
        LExpr::TableSpaced(items) => LExpr::TableSpaced(norm_items(items)),
        LExpr::Func(ps, body) => LExpr::Func(ps, norm_body(body, Ctx::DelimLast)),
    }
}

/// Arguments: the last one spreads its values, the others truncate.
pub open spec fn norm_args(args: Seq<LExpr>) -> Seq<LExpr>
    decreases args,
{
    Seq::new(args.len(), |i: int| if 0 <= i < args.len() {
        norm_expr(args[i], arg_ctx(i, args.len() as int))
    } else {
        LExpr::Name(Seq::empty())
    })
}

/// Table items: only the last positional item spreads.
pub open spec fn norm_items(items: Seq<LItem>) -> Seq<LItem>
    decreases items,
{
    Seq::new(items.len(), |i: int| if 0 <= i < items.len() {
        match items[i] {
            LItem::Pos(e) => LItem::Pos(norm_expr(e, arg_ctx(i, items.len() as int))),
            LItem::KV(k, e) => LItem::KV(k, norm_expr(e, Ctx::Delim)),
        }
    } else {
        LItem::Pos(LExpr::Name(Seq::empty()))
    })
}

pub open spec fn norm_body(b: LBody, rc: Ctx) -> LBody
    decreases b,
{
    match b {
        LBody::Inline(ss) => LBody::Inline(norm_block(ss, rc)),
        LBody::Block(ss) => LBody::Block(norm_block(ss, rc)),
    }
}

/// A block whose returns are `rc` positions.
pub open spec fn norm_block(ss: Seq<LStmt>, rc: Ctx) -> Seq<LStmt>
    decreases ss,
{
    Seq::new(ss.len(), |i: int| if 0 <= i < ss.len() { norm_stmt(ss[i], rc) } else { LStmt::ReturnNone })
}

pub open spec fn norm_stmt(s: LStmt, rc: Ctx) -> LStmt
    decreases s,
{
    match s {
        LStmt::Local(ns, init) => LStmt::Local(ns, match init {
            Some(e) => Some(norm_expr(e, if ns.len() == 1 { Ctx::Delim } else { Ctx::DelimLast })),
            None => None,
        }),
        LStmt::Assign(l, e) => LStmt::Assign(l, norm_expr(e, Ctx::Delim)),
        LStmt::Return(e) => LStmt::Return(norm_expr(e, rc)),
        LStmt::Expr(e) => LStmt::Expr(norm_expr(e, Ctx::Delim)),
        LStmt::If(c, t, arms, els) => LStmt::If(norm_expr(c, Ctx::Delim), norm_block(t, rc), norm_arms(arms, rc), match els {
            Some(b) => Some(norm_block(b, rc)),
            None => None,
        }),
        LStmt::AssignIf(l, c, t, e) => LStmt::AssignIf(l, norm_expr(c, Ctx::Delim), norm_expr(t, Ctx::Delim), norm_expr(e, Ctx::Delim)),
        LStmt::MultiAssign(ls, es) => LStmt::MultiAssign(ls, norm_args(es)),
        LStmt::Do(b) => LStmt::Do(norm_block(b, rc)),
        LStmt::WhileTrue(b) => LStmt::WhileTrue(norm_block(b, rc)),
        LStmt::Function(t, ps, b) => LStmt::Function(t, ps, norm_block(b, Ctx::DelimLast)),
        LStmt::ReturnTable(es) => LStmt::ReturnTable(norm_entries(es)),
        _ => s,
    }
}

pub open spec fn norm_arms(arms: Seq<(LExpr, Seq<LStmt>)>, rc: Ctx) -> Seq<(LExpr, Seq<LStmt>)>
    decreases arms,
{
    Seq::new(arms.len(), |i: int| if 0 <= i < arms.len() {
        (norm_expr(arms[i].0, Ctx::Delim), norm_block(arms[i].1, rc))
    } else {
        (LExpr::Name(Seq::empty()), Seq::empty())
    })
}

pub open spec fn norm_entries(es: Seq<(Seq<char>, LExpr)>) -> Seq<(Seq<char>, LExpr)>
    decreases es,
{
    Seq::new(es.len(), |i: int| if 0 <= i < es.len() {
        (es[i].0, norm_expr(es[i].1, Ctx::Delim))
    } else {
        (Seq::empty(), LExpr::Name(Seq::empty()))
    })
}

// ---------------------------------------------------------------------
// Normalization only removes parens
// ---------------------------------------------------------------------

/// The tree with every grouping paren erased.
pub open spec fn strip_expr(e: LExpr) -> LExpr
    decreases e,
{
    match e {
        LExpr::Paren(b) => strip_expr(*b),
        LExpr::Call(f, args) => LExpr::Call(Box::new(strip_expr(*f)), strip_exprs(args)),
        LExpr::Method(r, m, args) => LExpr::Method(Box::new(strip_expr(*r)), m, strip_exprs(args)),
        LExpr::Index(b, s) => LExpr::Index(Box::new(strip_expr(*b)), s),
        LExpr::Binop(op, l, r) => LExpr::Binop(op, Box::new(strip_expr(*l)), Box::new(strip_expr(*r))),
        LExpr::Neg(b) => LExpr::Neg(Box::new(strip_expr(*b))),
        LExpr::Table(items) => LExpr::Table(strip_items(items)),
        LExpr::TableSpaced(items) => LExpr::TableSpaced(strip_items(items)),
        LExpr::Func(ps, body) => LExpr::Func(ps, strip_body(body)),
        _ => e,
    }
}

pub open spec fn strip_exprs(s: Seq<LExpr>) -> Seq<LExpr>
    decreases s,
{
    Seq::new(s.len(), |i: int| if 0 <= i < s.len() { strip_expr(s[i]) } else { LExpr::Name(Seq::empty()) })
}

pub open spec fn strip_items(s: Seq<LItem>) -> Seq<LItem>
    decreases s,
{
    Seq::new(s.len(), |i: int| if 0 <= i < s.len() {
        match s[i] {
            LItem::Pos(e) => LItem::Pos(strip_expr(e)),
            LItem::KV(k, e) => LItem::KV(k, strip_expr(e)),
        }
    } else {
        LItem::Pos(LExpr::Name(Seq::empty()))
    })
}

pub open spec fn strip_body(b: LBody) -> LBody
    decreases b,
{
    match b {
        LBody::Inline(ss) => LBody::Inline(strip_block(ss)),
        LBody::Block(ss) => LBody::Block(strip_block(ss)),
    }
}

pub open spec fn strip_block(ss: Seq<LStmt>) -> Seq<LStmt>
    decreases ss,
{
    Seq::new(ss.len(), |i: int| if 0 <= i < ss.len() { strip_stmt(ss[i]) } else { LStmt::ReturnNone })
}

pub open spec fn strip_stmt(s: LStmt) -> LStmt
    decreases s,
{
    match s {
        LStmt::Local(ns, init) => LStmt::Local(ns, match init {
            Some(e) => Some(strip_expr(e)),
            None => None,
        }),
        LStmt::Assign(l, e) => LStmt::Assign(l, strip_expr(e)),
        LStmt::Return(e) => LStmt::Return(strip_expr(e)),
        LStmt::Expr(e) => LStmt::Expr(strip_expr(e)),
        LStmt::If(c, t, arms, els) => LStmt::If(strip_expr(c), strip_block(t), strip_arms(arms), match els {
            Some(b) => Some(strip_block(b)),
            None => None,
        }),
        LStmt::AssignIf(l, c, t, e) => LStmt::AssignIf(l, strip_expr(c), strip_expr(t), strip_expr(e)),
        LStmt::MultiAssign(ls, es) => LStmt::MultiAssign(ls, strip_exprs(es)),
        LStmt::Do(b) => LStmt::Do(strip_block(b)),
        LStmt::WhileTrue(b) => LStmt::WhileTrue(strip_block(b)),
        LStmt::Function(t, ps, b) => LStmt::Function(t, ps, strip_block(b)),
        LStmt::ReturnTable(es) => LStmt::ReturnTable(strip_entries(es)),
        _ => s,
    }
}

pub open spec fn strip_arms(arms: Seq<(LExpr, Seq<LStmt>)>) -> Seq<(LExpr, Seq<LStmt>)>
    decreases arms,
{
    Seq::new(arms.len(), |i: int| if 0 <= i < arms.len() {
        (strip_expr(arms[i].0), strip_block(arms[i].1))
    } else {
        (LExpr::Name(Seq::empty()), Seq::empty())
    })
}

pub open spec fn strip_entries(es: Seq<(Seq<char>, LExpr)>) -> Seq<(Seq<char>, LExpr)>
    decreases es,
{
    Seq::new(es.len(), |i: int| if 0 <= i < es.len() {
        (es[i].0, strip_expr(es[i].1))
    } else {
        (Seq::empty(), LExpr::Name(Seq::empty()))
    })
}

/// Paren normalization changes nothing but grouping: with every paren
/// erased, the normalized expression is the original one.
pub proof fn lemma_norm_expr_strip(e: LExpr, ctx: Ctx)
    ensures
        strip_expr(norm_expr(e, ctx)) == strip_expr(e),
    decreases e,
{
    match e {
        LExpr::Paren(b) => {
            if redundant(*b, ctx) {
                lemma_norm_expr_strip(*b, ctx);
            } else {
                lemma_norm_expr_strip(*b, Ctx::Grouped);
            }
        },
        LExpr::Call(f, args) => {
            if is_name(*f, "__thunk"@) && args.len() == 1 && args[0] is Func {
                match args[0] {
                    LExpr::Func(ps, body) => {
                        lemma_norm_body_strip(body, Ctx::Delim);
                        let n = norm_expr(e, ctx);
                        assert(strip_exprs(seq![LExpr::Func(ps, norm_body(body, Ctx::Delim))]) =~= strip_exprs(args));
                    },
                    _ => {},
                }
            } else {
                lemma_norm_expr_strip(*f, Ctx::Prefix);
                lemma_norm_args_strip(args);
            }
        },
        LExpr::Method(r, m, args) => {
            lemma_norm_expr_strip(*r, Ctx::Prefix);
            lemma_norm_args_strip(args);
        },
        LExpr::Index(b, _) => {
            lemma_norm_expr_strip(*b, Ctx::Prefix);
        },
        LExpr::Binop(_, l, r) => {
            lemma_norm_expr_strip(*l, Ctx::Grouped);
            lemma_norm_expr_strip(*r, Ctx::Grouped);
        },
        LExpr::Neg(b) => {
            lemma_norm_expr_strip(*b, Ctx::Grouped);
        },
        LExpr::Table(items) => {
            lemma_norm_items_strip(items);
        },
        LExpr::TableSpaced(items) => {
            lemma_norm_items_strip(items);
        },
        LExpr::Func(_, body) => {
            lemma_norm_body_strip(body, Ctx::DelimLast);
        },
        _ => {},
    }
}

proof fn lemma_norm_args_strip(args: Seq<LExpr>)
    ensures
        strip_exprs(norm_args(args)) == strip_exprs(args),
    decreases args,
{
    assert forall|i: int| 0 <= i < args.len() implies strip_exprs(norm_args(args))[i] == strip_exprs(args)[i] by {
        lemma_norm_expr_strip(args[i], arg_ctx(i, args.len() as int));
    }
    assert(strip_exprs(norm_args(args)) =~= strip_exprs(args));
}

proof fn lemma_norm_items_strip(items: Seq<LItem>)
    ensures
        strip_items(norm_items(items)) == strip_items(items),
    decreases items,
{
    assert forall|i: int| 0 <= i < items.len() implies strip_items(norm_items(items))[i] == strip_items(items)[i] by {
        match items[i] {
            LItem::Pos(e) => lemma_norm_expr_strip(e, arg_ctx(i, items.len() as int)),
            LItem::KV(_, e) => lemma_norm_expr_strip(e, Ctx::Delim),
        }
    }
    assert(strip_items(norm_items(items)) =~= strip_items(items));
}

proof fn lemma_norm_body_strip(b: LBody, rc: Ctx)
    ensures
        strip_body(norm_body(b, rc)) == strip_body(b),
    decreases b,
{
    match b {
        LBody::Inline(ss) => lemma_norm_block_strip(ss, rc),
        LBody::Block(ss) => lemma_norm_block_strip(ss, rc),
    }
}

/// Paren normalization of a block changes nothing but grouping.
pub proof fn lemma_norm_block_strip(ss: Seq<LStmt>, rc: Ctx)
    ensures
        strip_block(norm_block(ss, rc)) == strip_block(ss),
    decreases ss,
{
    assert forall|i: int| 0 <= i < ss.len() implies strip_block(norm_block(ss, rc))[i] == strip_block(ss)[i] by {
        lemma_norm_stmt_strip(ss[i], rc);
    }
    assert(strip_block(norm_block(ss, rc)) =~= strip_block(ss));
}

proof fn lemma_norm_stmt_strip(s: LStmt, rc: Ctx)
    ensures
        strip_stmt(norm_stmt(s, rc)) == strip_stmt(s),
    decreases s,
{
    match s {
        LStmt::Local(ns, init) => {
            match init {
                Some(e) => lemma_norm_expr_strip(e, if ns.len() == 1 { Ctx::Delim } else { Ctx::DelimLast }),
                None => {},
            }
        },
        LStmt::Assign(_, e) => lemma_norm_expr_strip(e, Ctx::Delim),
        LStmt::Return(e) => lemma_norm_expr_strip(e, rc),
        LStmt::Expr(e) => lemma_norm_expr_strip(e, Ctx::Delim),
        LStmt::If(c, t, arms, els) => {
            lemma_norm_expr_strip(c, Ctx::Delim);
            lemma_norm_block_strip(t, rc);
            lemma_norm_arms_strip(arms, rc);
            match els {
                Some(b) => lemma_norm_block_strip(b, rc),
                None => {},
            }
        },
        LStmt::AssignIf(_, c, t, e) => {
            lemma_norm_expr_strip(c, Ctx::Delim);
            lemma_norm_expr_strip(t, Ctx::Delim);
            lemma_norm_expr_strip(e, Ctx::Delim);
        },
        LStmt::MultiAssign(_, es) => lemma_norm_args_strip(es),
        LStmt::Do(b) => lemma_norm_block_strip(b, rc),
        LStmt::WhileTrue(b) => lemma_norm_block_strip(b, rc),
        LStmt::Function(_, _, b) => lemma_norm_block_strip(b, Ctx::DelimLast),
        LStmt::ReturnTable(es) => lemma_norm_entries_strip(es),
        _ => {},
    }
}

proof fn lemma_norm_arms_strip(arms: Seq<(LExpr, Seq<LStmt>)>, rc: Ctx)
    ensures
        strip_arms(norm_arms(arms, rc)) == strip_arms(arms),
    decreases arms,
{
    assert forall|i: int| 0 <= i < arms.len() implies strip_arms(norm_arms(arms, rc))[i] == strip_arms(arms)[i] by {
        lemma_norm_expr_strip(arms[i].0, Ctx::Delim);
        lemma_norm_block_strip(arms[i].1, rc);
    }
    assert(strip_arms(norm_arms(arms, rc)) =~= strip_arms(arms));
}

proof fn lemma_norm_entries_strip(es: Seq<(Seq<char>, LExpr)>)
    ensures
        strip_entries(norm_entries(es)) == strip_entries(es),
    decreases es,
{
    assert forall|i: int| 0 <= i < es.len() implies strip_entries(norm_entries(es))[i] == strip_entries(es)[i] by {
        lemma_norm_expr_strip(es[i].1, Ctx::Delim);
    }
    assert(strip_entries(norm_entries(es)) =~= strip_entries(es));
}

// ---------------------------------------------------------------------
// Computed
// ---------------------------------------------------------------------

fn redundant_exec(inner: &Expr, ctx: Ctx) -> (r: bool)
    ensures
        r == redundant(inner@, ctx),
{
    match ctx {
        Ctx::Grouped => match inner {
            Expr::Name(_) | Expr::Lit(_) | Expr::Index(_, _) | Expr::Paren(_) => true,
            _ => false,
        },
        Ctx::Delim => match inner {
            Expr::Raw(_) => false,
            _ => true,
        },
        Ctx::DelimLast => match inner {
            Expr::Raw(_) => false,
            Expr::Method(_, _, _) => false,
            Expr::Call(f, _) => single_return_callee_exec(f),
            _ => true,
        },
        Ctx::Prefix => match inner {
            Expr::Name(_) | Expr::Index(_, _) | Expr::Paren(_) | Expr::Call(_, _) | Expr::Method(_, _, _) => true,
            _ => false,
        },
    }
}

fn norm_expr_exec(e: Expr, ctx: Ctx) -> (r: Expr)
    ensures
        r@ == norm_expr(e@, ctx),
    decreases e,
{
    let ghost em = e@;
    match e {
        Expr::Paren(b) => {
            if redundant_exec(&b, ctx) {
                norm_expr_exec(*b, ctx)
            } else {
                Expr::Paren(Box::new(norm_expr_exec(*b, Ctx::Grouped)))
            }
        },
        Expr::Call(f, args) => {
            let thunk = crate::loopcore::is_name_exec(&f, "__thunk") && args.len() == 1 && match &args[0] {
                Expr::Func(_, _) => true,
                _ => false,
            };
            if thunk {
                let mut args = args;
                let a = args.pop().unwrap();
                assert(exprs_model(args@.push(a))[0] == a@);
                match a {
                    Expr::Func(ps, body) => {
                        let ghost pm = strs_model(ps@);
                        let nb = norm_body_exec(body, Ctx::Delim);
                        let nf = Expr::Func(ps, nb);
                        let mut na: Vec<Expr> = Vec::new();
                        let ghost nfm = nf@;
                        na.push(nf);
                        assert(exprs_model(na@) =~= seq![nfm]);
                        Expr::Call(f, na)
                    },
                    _ => {
                        assert(false);
                        Expr::Name(String::new())
                    },
                }
            } else {
                let nf = norm_expr_exec(*f, Ctx::Prefix);
                Expr::Call(Box::new(nf), norm_args_exec(args))
            }
        },
        Expr::Method(r, m, args) => {
            let nr = norm_expr_exec(*r, Ctx::Prefix);
            Expr::Method(Box::new(nr), m, norm_args_exec(args))
        },
        Expr::Index(b, sfx) => Expr::Index(Box::new(norm_expr_exec(*b, Ctx::Prefix)), sfx),
        Expr::Binop(op, l, r) => {
            let nl = norm_expr_exec(*l, Ctx::Grouped);
            let nr = norm_expr_exec(*r, Ctx::Grouped);
            Expr::Binop(op, Box::new(nl), Box::new(nr))
        },
        Expr::Neg(b) => Expr::Neg(Box::new(norm_expr_exec(*b, Ctx::Grouped))),
        Expr::Table(items) => Expr::Table(norm_items_exec(items)),
        Expr::TableSpaced(items) => Expr::TableSpaced(norm_items_exec(items)),
        Expr::Func(ps, body) => Expr::Func(ps, norm_body_exec(body, Ctx::DelimLast)),
        other => other,
    }
}

fn norm_args_exec(args: Vec<Expr>) -> (r: Vec<Expr>)
    ensures
        exprs_model(r@) == norm_args(exprs_model(args@)),
    decreases args,
{
    let ghost a0 = args@;
    let len = args.len();
    let mut rest = args;
    let mut out: Vec<Expr> = Vec::new();
    let mut i: usize = 0;
    while rest.len() > 0
        invariant
            len == a0.len(),
            args@ == a0,
            i <= len,
            rest@ == a0.skip(i as int),
            out@.len() == i,
            forall|j: int| 0 <= j < i ==> #[trigger] out@[j]@ == norm_expr(a0[j]@, arg_ctx(j, len as int)),
        decreases rest@.len(),
    {
        assert(a0.skip(i as int).len() > 0);
        let x = rest.remove(0);
        assert(a0[i as int] == x);
        assert(decreases_to!(args => args@[i as int]));
        let c = if i == len - 1 { Ctx::DelimLast } else { Ctx::Delim };
        out.push(norm_expr_exec(x, c));
        assert(rest@ =~= a0.skip(i as int + 1));
        i = i + 1;
    }
    proof {
        let a = exprs_model(out@);
        let b = norm_args(exprs_model(a0));
        assert forall|j: int| 0 <= j < a.len() implies a[j] == b[j] by {
            assert(a[j] == out@[j]@);
            assert(exprs_model(a0)[j] == a0[j]@);
        }
        assert(a =~= b);
    }
    out
}

fn norm_items_exec(items: Vec<Item>) -> (r: Vec<Item>)
    ensures
        items_model(r@) == norm_items(items_model(items@)),
    decreases items,
{
    let ghost a0 = items@;
    let len = items.len();
    let mut rest = items;
    let mut out: Vec<Item> = Vec::new();
    let mut i: usize = 0;
    while rest.len() > 0
        invariant
            len == a0.len(),
            items@ == a0,
            i <= len,
            rest@ == a0.skip(i as int),
            out@.len() == i,
            forall|j: int| 0 <= j < i ==> #[trigger] out@[j]@ == norm_items(items_model(a0))[j],
        decreases rest@.len(),
    {
        assert(a0.skip(i as int).len() > 0);
        let x = rest.remove(0);
        assert(a0[i as int] == x);
        assert(items_model(a0)[i as int] == x@);
        assert(decreases_to!(items => items@[i as int]));
        let nx = match x {
            Item::Pos(e) => {
                let c = if i == len - 1 { Ctx::DelimLast } else { Ctx::Delim };
                Item::Pos(norm_expr_exec(e, c))
            },
            Item::KV(k, e) => Item::KV(k, norm_expr_exec(e, Ctx::Delim)),
        };
        out.push(nx);
        assert(rest@ =~= a0.skip(i as int + 1));
        i = i + 1;
    }
    proof {
        let a = items_model(out@);
        let b = norm_items(items_model(a0));
        assert forall|j: int| 0 <= j < a.len() implies a[j] == b[j] by {
            assert(a[j] == out@[j]@);
        }
        assert(a =~= b);
    }
    out
}

fn norm_body_exec(b: FuncBody, rc: Ctx) -> (r: FuncBody)
    ensures
        r@ == norm_body(b@, rc),
    decreases b,
{
    match b {
        FuncBody::Inline(ss) => FuncBody::Inline(norm_block_exec(ss, rc)),
        FuncBody::Block(Block(ss)) => FuncBody::Block(Block(norm_block_exec(ss, rc))),
    }
}

fn norm_block_exec(ss: Vec<Stmt>, rc: Ctx) -> (r: Vec<Stmt>)
    ensures
        stmts_model(r@) == norm_block(stmts_model(ss@), rc),
    decreases ss,
{
    let ghost s0 = ss@;
    let len = ss.len();
    let mut rest = ss;
    let mut out: Vec<Stmt> = Vec::new();
    let mut i: usize = 0;
    while rest.len() > 0
        invariant
            len == s0.len(),
            ss@ == s0,
            i <= len,
            rest@ == s0.skip(i as int),
            out@.len() == i,
            forall|j: int| 0 <= j < i ==> #[trigger] out@[j]@ == norm_stmt(s0[j]@, rc),
        decreases rest@.len(),
    {
        assert(s0.skip(i as int).len() > 0);
        let st = rest.remove(0);
        assert(s0[i as int] == st);
        assert(decreases_to!(ss => ss@[i as int]));
        out.push(norm_stmt_exec(st, rc));
        assert(rest@ =~= s0.skip(i as int + 1));
        i = i + 1;
    }
    proof {
        let a = stmts_model(out@);
        let b = norm_block(stmts_model(s0), rc);
        assert forall|j: int| 0 <= j < a.len() implies a[j] == b[j] by {
            assert(a[j] == out@[j]@);
            assert(stmts_model(s0)[j] == s0[j]@);
        }
        assert(a =~= b);
    }
    out
}

fn norm_stmt_exec(s: Stmt, rc: Ctx) -> (r: Stmt)
    ensures
        r@ == norm_stmt(s@, rc),
    decreases s,
{
    match s {
        Stmt::Local(ns, init) => {
            let c = if ns.len() == 1 { Ctx::Delim } else { Ctx::DelimLast };
            let ni = match init {
                Some(e) => Some(norm_expr_exec(e, c)),
                None => None,
            };
            Stmt::Local(ns, ni)
        },
        Stmt::Assign(l, e) => Stmt::Assign(l, norm_expr_exec(e, Ctx::Delim)),
        Stmt::Return(e) => Stmt::Return(norm_expr_exec(e, rc)),
        Stmt::Expr(e) => Stmt::Expr(norm_expr_exec(e, Ctx::Delim)),
        Stmt::If { cond, then_b, elseifs, else_b } => {
            let nc = norm_expr_exec(cond, Ctx::Delim);
            let nt = norm_block_exec(then_b.0, rc);
            let na = norm_arms_exec(elseifs, rc);
            let ne = match else_b {
                Some(b) => Some(Block(norm_block_exec(b.0, rc))),
                None => None,
            };
            Stmt::If { cond: nc, then_b: Block(nt), elseifs: na, else_b: ne }
        },
        Stmt::AssignIf { lhs, cond, then_e, else_e } => {
            let nc = norm_expr_exec(cond, Ctx::Delim);
            let nt = norm_expr_exec(then_e, Ctx::Delim);
            let ne = norm_expr_exec(else_e, Ctx::Delim);
            Stmt::AssignIf { lhs, cond: nc, then_e: nt, else_e: ne }
        },
        Stmt::MultiAssign(ls, es) => Stmt::MultiAssign(ls, norm_args_exec(es)),
        Stmt::Do(b) => Stmt::Do(Block(norm_block_exec(b.0, rc))),
        Stmt::WhileTrue(b) => Stmt::WhileTrue(Block(norm_block_exec(b.0, rc))),
        Stmt::Function { target, params, body } => Stmt::Function { target, params, body: Block(norm_block_exec(body.0, Ctx::DelimLast)) },
        Stmt::ReturnTable(es) => Stmt::ReturnTable(norm_entries_exec(es)),
        other => other,
    }
}

fn norm_arms_exec(arms: Vec<(Expr, Block)>, rc: Ctx) -> (r: Vec<(Expr, Block)>)
    ensures
        arms_model(r@) == norm_arms(arms_model(arms@), rc),
    decreases arms,
{
    let ghost a0 = arms@;
    let ghost am = arms_model(arms@);
    let len = arms.len();
    let mut rest = arms;
    let mut out: Vec<(Expr, Block)> = Vec::new();
    let mut i: usize = 0;
    while rest.len() > 0
        invariant
            len == a0.len(),
            arms@ == a0,
            am == arms_model(a0),
            i <= len,
            rest@ == a0.skip(i as int),
            out@.len() == i,
            forall|j: int| 0 <= j < i ==> #[trigger] arms_model(out@)[j] == norm_arms(am, rc)[j],
        decreases rest@.len(),
    {
        assert(a0.skip(i as int).len() > 0);
        let (c, b) = rest.remove(0);
        assert(a0[i as int] == (c, b));
        assert(decreases_to!(arms => arms@[i as int]));
        let nc = norm_expr_exec(c, Ctx::Delim);
        let nb = norm_block_exec(b.0, rc);
        let ghost old_out = out@;
        out.push((nc, Block(nb)));
        proof {
            assert forall|j: int| 0 <= j < i + 1 implies #[trigger] arms_model(out@)[j] == norm_arms(am, rc)[j] by {
                if j < i {
                    assert(arms_model(out@)[j] == arms_model(old_out)[j]);
                }
            }
        }
        assert(rest@ =~= a0.skip(i as int + 1));
        i = i + 1;
    }
    assert(arms_model(out@) =~= norm_arms(am, rc));
    out
}

fn norm_entries_exec(es: Vec<(String, Expr)>) -> (r: Vec<(String, Expr)>)
    ensures
        entries_model(r@) == norm_entries(entries_model(es@)),
    decreases es,
{
    let ghost a0 = es@;
    let ghost am = entries_model(es@);
    let len = es.len();
    let mut rest = es;
    let mut out: Vec<(String, Expr)> = Vec::new();
    let mut i: usize = 0;
    while rest.len() > 0
        invariant
            len == a0.len(),
            es@ == a0,
            am == entries_model(a0),
            i <= len,
            rest@ == a0.skip(i as int),
            out@.len() == i,
            forall|j: int| 0 <= j < i ==> #[trigger] entries_model(out@)[j] == norm_entries(am)[j],
        decreases rest@.len(),
    {
        assert(a0.skip(i as int).len() > 0);
        let (k, e) = rest.remove(0);
        assert(a0[i as int] == (k, e));
        assert(decreases_to!(es => es@[i as int]));
        let ne = norm_expr_exec(e, Ctx::Delim);
        let ghost old_out = out@;
        out.push((k, ne));
        proof {
            assert forall|j: int| 0 <= j < i + 1 implies #[trigger] entries_model(out@)[j] == norm_entries(am)[j] by {
                if j < i {
                    assert(entries_model(out@)[j] == entries_model(old_out)[j]);
                }
            }
        }
        assert(rest@ =~= a0.skip(i as int + 1));
        i = i + 1;
    }
    assert(entries_model(out@) =~= norm_entries(am));
    out
}

/// Drop every redundant paren of the module body (its returns are a
/// function body's: multi-value positions).
pub fn normalize_parens(stmts: &mut Vec<Stmt>)
    ensures
        stmts_model(final(stmts)@) == norm_block(stmts_model(old(stmts)@), Ctx::DelimLast),
{
    let mut taken: Vec<Stmt> = Vec::new();
    std::mem::swap(&mut taken, stmts);
    let r = norm_block_exec(taken, Ctx::DelimLast);
    *stmts = r;
}

} // verus!
