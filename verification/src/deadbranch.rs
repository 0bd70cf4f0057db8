//! Dead-branch removal over the finished statement list.
//!
//! Bottom-up, every block and every function-literal body is rewritten:
//!
//! * an `elseif true` arm becomes the `else`, and the arms after it and the
//!   old `else` go;
//! * an `if true` keeps only its first arm, as a `do` block so that its
//!   locals stay scoped;
//! * `if C … elseif ¬C …` with no `else`, where the two conditions are one
//!   `==`/`~=` comparison of the same operands, becomes `if C … else …`;
//! * in a block without `goto` or labels, the statements after the first
//!   one that always returns or raises are dropped, and a final `do` block
//!   is spliced into the block.
//!
//! A block that holds a `goto` or a label keeps its statements: a label that
//! looks dead may be a jump target.

use vstd::prelude::*;
use crate::lua::{Expr, Item, FuncBody, Stmt, Block, LExpr, LItem, LBody, LStmt,
    stmts_model, exprs_model, items_model, arms_model, entries_model, expr_text};
use crate::luaopt::{stmt_diverges, stmt_diverges_exec};
use crate::text::str_eq;

verus! {

broadcast use vstd::string::group_string_axioms;

// ---------------------------------------------------------------------
// Specification
// ---------------------------------------------------------------------

/// The literal `true`.
pub open spec fn is_true_lit(e: LExpr) -> bool {
    e == LExpr::Lit("true"@)
}

/// `b` is `a` with its one top-level `==`/`~=` swapped, the operands
/// rendering alike.
pub open spec fn complement_conds(a: LExpr, b: LExpr) -> bool {
    match a {
        LExpr::Binop(o1, l1, r1) => match b {
            LExpr::Binop(o2, l2, r2) => ((o1 == "=="@ && o2 == "~="@) || (o1 == "~="@ && o2 == "=="@))
                && expr_text(*l1, 0) == expr_text(*l2, 0) && expr_text(*r1, 0) == expr_text(*r2, 0),
            _ => false,
        },
        _ => false,
    }
}

/// Index of the first arm whose condition is the literal `true`, or the
/// number of arms.
pub open spec fn first_true(arms: Seq<(LExpr, Seq<LStmt>)>) -> int
    decreases arms.len(),
{
    if arms.len() == 0 {
        0
    } else if is_true_lit(arms[0].0) {
        0
    } else {
        1 + first_true(arms.drop_first())
    }
}

/// Index of the first statement that diverges, or the length.
pub open spec fn first_div(ss: Seq<LStmt>) -> int
    decreases ss.len(),
{
    if ss.len() == 0 {
        0
    } else if stmt_diverges(ss[0]) {
        0
    } else {
        1 + first_div(ss.drop_first())
    }
}

/// The block holds a `goto` or a label at its top level.
pub open spec fn has_jump(ss: Seq<LStmt>) -> bool {
    exists|i: int| 0 <= i < ss.len() && (#[trigger] ss[i] is Goto || ss[i] is Label)
}

/// The statements up to and including the first diverging one.
pub open spec fn cut(ss: Seq<LStmt>) -> Seq<LStmt> {
    if first_div(ss) < ss.len() { ss.take(first_div(ss) + 1) } else { ss }
}

/// A final `do` block spliced into its block.
pub open spec fn splice_do(ss: Seq<LStmt>) -> Seq<LStmt> {
    if ss.len() > 0 {
        match ss.last() {
            LStmt::Do(b) => ss.drop_last() + b,
            _ => ss,
        }
    } else {
        ss
    }
}

/// The block-level rewrites over already rewritten statements.
pub open spec fn block_rw(kids: Seq<LStmt>) -> Seq<LStmt> {
    if has_jump(kids) { kids } else { splice_do(cut(kids)) }
}

/// The `if`-level rewrites over already rewritten parts.
pub open spec fn if_rw(c: LExpr, t: Seq<LStmt>, arms: Seq<(LExpr, Seq<LStmt>)>, els: Option<Seq<LStmt>>) -> LStmt {
    let k = first_true(arms);
    let arms1 = arms.take(k);
    let els1 = if k < arms.len() { Some(arms[k].1) } else { els };
    if is_true_lit(c) {
        LStmt::Do(t)
    } else if arms1.len() == 1 && els1 is None && complement_conds(c, arms1[0].0) {
        LStmt::If(c, t, Seq::empty(), Some(arms1[0].1))
    } else {
        LStmt::If(c, t, arms1, els1)
    }
}

pub open spec fn db_expr(e: LExpr) -> LExpr
    decreases e, 0nat,
{
    match e {
        LExpr::Paren(b) => LExpr::Paren(Box::new(db_expr(*b))),
        LExpr::Neg(b) => LExpr::Neg(Box::new(db_expr(*b))),
        LExpr::Call(f, args) => LExpr::Call(Box::new(db_expr(*f)), db_exprs(args)),
        LExpr::Method(r, m, args) => LExpr::Method(Box::new(db_expr(*r)), m, db_exprs(args)),
        LExpr::Index(b, s) => LExpr::Index(Box::new(db_expr(*b)), s),
        LExpr::Binop(op, l, r) => LExpr::Binop(op, Box::new(db_expr(*l)), Box::new(db_expr(*r))),
        LExpr::Table(items) => LExpr::Table(db_items(items)),
        LExpr::TableSpaced(items) => LExpr::TableSpaced(db_items(items)),
        LExpr::Func(ps, body) => LExpr::Func(ps, db_body(body)),
        _ => e,
    }
}

pub open spec fn db_exprs(es: Seq<LExpr>) -> Seq<LExpr>
    decreases es, 0nat,
{
    Seq::new(es.len(), |i: int| if 0 <= i < es.len() { db_expr(es[i]) } else { LExpr::Name(Seq::empty()) })
}

pub open spec fn db_items(items: Seq<LItem>) -> Seq<LItem>
    decreases items, 0nat,
{
    Seq::new(items.len(), |i: int| if 0 <= i < items.len() {
        match items[i] {
            LItem::Pos(e) => LItem::Pos(db_expr(e)),
            LItem::KV(k, e) => LItem::KV(k, db_expr(e)),
        }
    } else {
        LItem::Pos(LExpr::Name(Seq::empty()))
    })
}

pub open spec fn db_body(b: LBody) -> LBody
    decreases b, 0nat,
{
    match b {
        LBody::Inline(ss) => LBody::Inline(db_block(ss)),
        LBody::Block(ss) => LBody::Block(db_block(ss)),
    }
}

/// Each statement rewritten, then the block-level rewrites.
pub open spec fn db_stmts(ss: Seq<LStmt>) -> Seq<LStmt>
    decreases ss, 0nat,
{
    Seq::new(ss.len(), |i: int| if 0 <= i < ss.len() { db_stmt(ss[i]) } else { LStmt::ReturnNone })
}

pub open spec fn db_block(ss: Seq<LStmt>) -> Seq<LStmt>
    decreases ss, 1nat,
{
    block_rw(db_stmts(ss))
}

pub open spec fn db_stmt(s: LStmt) -> LStmt
    decreases s, 0nat,
{
    match s {
        LStmt::Local(ns, init) => LStmt::Local(ns, match init {
            Some(e) => Some(db_expr(e)),
            None => None,
        }),
        LStmt::Assign(l, e) => LStmt::Assign(l, db_expr(e)),
        LStmt::Return(e) => LStmt::Return(db_expr(e)),
        LStmt::Expr(e) => LStmt::Expr(db_expr(e)),
        LStmt::MultiAssign(ls, es) => LStmt::MultiAssign(ls, db_exprs(es)),
        LStmt::AssignIf(l, c, t, e) => LStmt::AssignIf(l, db_expr(c), db_expr(t), db_expr(e)),
        LStmt::Do(b) => LStmt::Do(db_block(b)),
        LStmt::WhileTrue(b) => LStmt::WhileTrue(db_block(b)),
        LStmt::Function(t, ps, b) => LStmt::Function(t, ps, db_block(b)),
        LStmt::ReturnTable(es) => LStmt::ReturnTable(db_entries(es)),
        LStmt::If(c, t, arms, els) => if_rw(db_expr(c), db_block(t), db_arms(arms), match els {
            Some(b) => Some(db_block(b)),
            None => None,
        }),
        _ => s,
    }
}

pub open spec fn db_arms(arms: Seq<(LExpr, Seq<LStmt>)>) -> Seq<(LExpr, Seq<LStmt>)>
    decreases arms, 0nat,
{
    Seq::new(arms.len(), |i: int| if 0 <= i < arms.len() {
        (db_expr(arms[i].0), db_block(arms[i].1))
    } else {
        (LExpr::Name(Seq::empty()), Seq::empty())
    })
}

pub open spec fn db_entries(es: Seq<(Seq<char>, LExpr)>) -> Seq<(Seq<char>, LExpr)>
    decreases es, 0nat,
{
    Seq::new(es.len(), |i: int| if 0 <= i < es.len() {
        (es[i].0, db_expr(es[i].1))
    } else {
        (Seq::empty(), LExpr::Name(Seq::empty()))
    })
}

// ---------------------------------------------------------------------
// Index lemmas
// ---------------------------------------------------------------------

proof fn lemma_first_true(arms: Seq<(LExpr, Seq<LStmt>)>, k: int)
    requires
        0 <= k <= arms.len(),
        forall|j: int| 0 <= j < k ==> !is_true_lit(#[trigger] arms[j].0),
        k == arms.len() || is_true_lit(arms[k].0),
    ensures
        first_true(arms) == k,
    decreases arms.len(),
{
    if arms.len() > 0 && k > 0 {
        assert(!is_true_lit(arms[0].0));
        let rest = arms.drop_first();
        assert forall|j: int| 0 <= j < k - 1 implies !is_true_lit(#[trigger] rest[j].0) by {
            assert(rest[j] == arms[j + 1]);
        }
        if k < arms.len() {
            assert(rest[k - 1] == arms[k]);
        }
        lemma_first_true(rest, k - 1);
    }
}

proof fn lemma_first_div(ss: Seq<LStmt>, k: int)
    requires
        0 <= k <= ss.len(),
        forall|j: int| 0 <= j < k ==> !stmt_diverges(#[trigger] ss[j]),
        k == ss.len() || stmt_diverges(ss[k]),
    ensures
        first_div(ss) == k,
    decreases ss.len(),
{
    if ss.len() > 0 && k > 0 {
        assert(!stmt_diverges(ss[0]));
        let rest = ss.drop_first();
        assert forall|j: int| 0 <= j < k - 1 implies !stmt_diverges(#[trigger] rest[j]) by {
            assert(rest[j] == ss[j + 1]);
        }
        if k < ss.len() {
            assert(rest[k - 1] == ss[k]);
        }
        lemma_first_div(rest, k - 1);
    }
}

/// `first_div` is the index of the first diverging statement.
proof fn lemma_first_div_props(ss: Seq<LStmt>)
    ensures
        0 <= first_div(ss) <= ss.len(),
        forall|j: int| 0 <= j < first_div(ss) ==> !stmt_diverges(#[trigger] ss[j]),
        first_div(ss) < ss.len() ==> stmt_diverges(ss[first_div(ss)]),
    decreases ss.len(),
{
    if ss.len() > 0 && !stmt_diverges(ss[0]) {
        let rest = ss.drop_first();
        lemma_first_div_props(rest);
        assert forall|j: int| 0 <= j < first_div(ss) implies !stmt_diverges(#[trigger] ss[j]) by {
            if j > 0 {
                assert(ss[j] == rest[j - 1]);
            }
        }
        if first_div(ss) < ss.len() {
            assert(ss[first_div(ss)] == rest[first_div(rest)]);
        }
    }
}

proof fn lemma_first_true_props(arms: Seq<(LExpr, Seq<LStmt>)>)
    ensures
        0 <= first_true(arms) <= arms.len(),
        forall|j: int| 0 <= j < first_true(arms) ==> !is_true_lit(#[trigger] arms[j].0),
        first_true(arms) < arms.len() ==> is_true_lit(arms[first_true(arms)].0),
    decreases arms.len(),
{
    if arms.len() > 0 && !is_true_lit(arms[0].0) {
        let rest = arms.drop_first();
        lemma_first_true_props(rest);
        assert forall|j: int| 0 <= j < first_true(arms) implies !is_true_lit(#[trigger] arms[j].0) by {
            if j > 0 {
                assert(arms[j] == rest[j - 1]);
            }
        }
        if first_true(arms) < arms.len() {
            assert(arms[first_true(arms)] == rest[first_true(rest)]);
        }
    }
}

// ---------------------------------------------------------------------
// What the pass leaves
// ---------------------------------------------------------------------

/// An `if` whose condition and `elseif` conditions are none the literal
/// `true` (any other statement qualifies).
pub open spec fn no_true_if(s: LStmt) -> bool {
    match s {
        LStmt::If(c, _, arms, _) => !is_true_lit(c) && forall|j: int| 0 <= j < arms.len() ==> !is_true_lit(#[trigger] arms[j].0),
        _ => true,
    }
}

/// No statement of the block but its last always returns or raises.
pub open spec fn no_dead_code(ss: Seq<LStmt>) -> bool {
    forall|i: int| 0 <= i < ss.len() - 1 ==> !stmt_diverges(#[trigger] ss[i])
}

proof fn lemma_db_stmt_if(s: LStmt)
    ensures
        no_true_if(db_stmt(s)),
{
    match s {
        LStmt::If(c, t, arms, els) => {
            lemma_first_true_props(db_arms(arms));
        },
        _ => {},
    }
}

/// After dead-branch removal, no `if` left in a block has a literal `true`
/// condition, and in a block without `goto` or labels no statement follows
/// one that always returns or raises.
pub proof fn lemma_db_block_clean(ss: Seq<LStmt>)
    ensures
        forall|i: int| 0 <= i < db_block(ss).len() ==> no_true_if(#[trigger] db_block(ss)[i]),
        !has_jump(db_block(ss)) ==> no_dead_code(db_block(ss)),
    decreases ss,
{
    let kids = db_stmts(ss);
    assert forall|i: int| 0 <= i < kids.len() implies no_true_if(#[trigger] kids[i]) by {
        lemma_db_stmt_if(ss[i]);
    }
    if !has_jump(kids) {
        lemma_first_div_props(kids);
        let c = cut(kids);
        assert forall|i: int| 0 <= i < c.len() - 1 implies !stmt_diverges(#[trigger] c[i]) by {
            assert(c[i] == kids[i]);
        }
        if c.len() > 0 && c.last() is Do {
            let m = c.len() - 1;
            assert(c.last() == db_stmt(ss[m]));
            let b = match c.last() {
                LStmt::Do(b) => b,
                _ => Seq::empty(),
            };
            match ss[m] {
                LStmt::Do(b0) => {
                    assert(decreases_to!(ss => ss[m]));
                    lemma_db_block_clean(b0);
                    assert(b == db_block(b0));
                },
                LStmt::If(cc, t, arms, els) => {
                    assert(decreases_to!(ss => ss[m]));
                    lemma_db_block_clean(t);
                    assert(b == db_block(t));
                },
                _ => {
                    assert(false);
                },
            }
            let out = db_block(ss);
            assert(out == c.drop_last() + b);
            assert forall|i: int| 0 <= i < out.len() implies no_true_if(#[trigger] out[i]) by {
                if i < m {
                    assert(out[i] == kids[i]);
                } else {
                    assert(out[i] == b[i - m]);
                }
            }
            if !has_jump(out) {
                assert(!has_jump(b)) by {
                    if has_jump(b) {
                        let j = choose|j: int| 0 <= j < b.len() && (#[trigger] b[j] is Goto || b[j] is Label);
                        assert(out[m + j] == b[j]);
                    }
                }
                assert forall|i: int| 0 <= i < out.len() - 1 implies !stmt_diverges(#[trigger] out[i]) by {
                    if i < m {
                        assert(out[i] == c[i]);
                    } else {
                        assert(out[i] == b[i - m]);
                    }
                }
            }
        } else {
            assert forall|i: int| 0 <= i < c.len() implies no_true_if(#[trigger] c[i]) by {
                assert(c[i] == kids[i]);
            }
        }
    }
}

// ---------------------------------------------------------------------
// Computed
// ---------------------------------------------------------------------

pub open spec fn opt_block(b: Option<Block>) -> Option<Seq<LStmt>> {
    match b {
        Some(b) => Some(stmts_model(b.0@)),
        None => None,
    }
}

fn is_true_lit_exec(e: &Expr) -> (r: bool)
    ensures
        r == is_true_lit(e@),
{
    match e {
        Expr::Lit(s) => str_eq(s.as_str(), "true"),
        _ => false,
    }
}

pub(crate) fn text_of(e: &Expr) -> (r: String)
    ensures
        r@ == expr_text(e@, 0),
{
    let mut s = String::new();
    e.render(0, &mut s);
    assert(s@ =~= expr_text(e@, 0));
    s
}

fn complement_conds_exec(a: &Expr, b: &Expr) -> (r: bool)
    ensures
        r == complement_conds(a@, b@),
{
    match a {
        Expr::Binop(o1, l1, r1) => match b {
            Expr::Binop(o2, l2, r2) => {
                let swapped = (str_eq(o1.as_str(), "==") && str_eq(o2.as_str(), "~="))
                    || (str_eq(o1.as_str(), "~=") && str_eq(o2.as_str(), "=="));
                if !swapped {
                    return false;
                }
                let tl1 = text_of(l1);
                let tl2 = text_of(l2);
                if !str_eq(tl1.as_str(), tl2.as_str()) {
                    return false;
                }
                let tr1 = text_of(r1);
                let tr2 = text_of(r2);
                str_eq(tr1.as_str(), tr2.as_str())
            },
            _ => false,
        },
        _ => false,
    }
}

fn block_rw_exec(kids: Vec<Stmt>) -> (r: Vec<Stmt>)
    ensures
        stmts_model(r@) == block_rw(stmts_model(kids@)),
{
    let ghost km = stmts_model(kids@);
    let mut i: usize = 0;
    while i < kids.len()
        invariant
            i <= kids@.len(),
            km == stmts_model(kids@),
            forall|j: int| 0 <= j < i ==> !(#[trigger] km[j] is Goto || km[j] is Label),
        decreases kids@.len() - i,
    {
        let jump = match &kids[i] {
            Stmt::Goto(_) => true,
            Stmt::Label(_) => true,
            _ => false,
        };
        if jump {
            assert(km[i as int] is Goto || km[i as int] is Label);
            assert(has_jump(km));
            return kids;
        }
        i = i + 1;
    }
    assert(!has_jump(km));
    let mut k: usize = 0;
    while k < kids.len() && !stmt_diverges_exec(&kids[k])
        invariant
            k <= kids@.len(),
            km == stmts_model(kids@),
            forall|j: int| 0 <= j < k ==> !stmt_diverges(#[trigger] km[j]),
        decreases kids@.len() - k,
    {
        k = k + 1;
    }
    proof {
        lemma_first_div(km, k as int);
    }
    let mut out = kids;
    if k < out.len() {
        out.truncate(k + 1);
    }
    assert(stmts_model(out@) =~= cut(km));
    if out.len() > 0 {
        let is_do = match &out[out.len() - 1] {
            Stmt::Do(_) => true,
            _ => false,
        };
        if is_do {
            let ghost before = out@;
            let last = out.pop().unwrap();
            match last {
                Stmt::Do(b) => {
                    let mut inner = b.0;
                    let ghost im = inner@;
                    out.append(&mut inner);
                    assert(stmts_model(out@) =~= stmts_model(before).drop_last() + stmts_model(im));
                },
                _ => {},
            }
        }
    }
    out
}

fn if_rw_exec(c: Expr, t: Vec<Stmt>, arms: Vec<(Expr, Block)>, els: Option<Block>) -> (r: Stmt)
    ensures
        r@ == if_rw(c@, stmts_model(t@), arms_model(arms@), opt_block(els)),
{
    let ghost am = arms_model(arms@);
    let mut k: usize = 0;
    while k < arms.len() && !is_true_lit_exec(&arms[k].0)
        invariant
            k <= arms@.len(),
            am == arms_model(arms@),
            forall|j: int| 0 <= j < k ==> !is_true_lit(#[trigger] am[j].0),
        decreases arms@.len() - k,
    {
        k = k + 1;
    }
    proof {
        lemma_first_true(am, k as int);
    }
    let mut arms = arms;
    let els1 = if k < arms.len() {
        arms.truncate(k + 1);
        let (_, b) = arms.pop().unwrap();
        Some(b)
    } else {
        els
    };
    assert(arms_model(arms@) =~= am.take(k as int));
    if is_true_lit_exec(&c) {
        return Stmt::Do(Block(t));
    }
    if arms.len() == 1 && els1.is_none() && complement_conds_exec(&c, &arms[0].0) {
        let (_, b) = arms.pop().unwrap();
        assert(arms_model(arms@) =~= Seq::<(LExpr, Seq<LStmt>)>::empty());
        return Stmt::If { cond: c, then_b: Block(t), elseifs: arms, else_b: Some(b) };
    }
    Stmt::If { cond: c, then_b: Block(t), elseifs: arms, else_b: els1 }
}

fn db_expr_exec(e: Expr) -> (r: Expr)
    ensures
        r@ == db_expr(e@),
    decreases e,
{
    match e {
        Expr::Paren(b) => Expr::Paren(Box::new(db_expr_exec(*b))),
        Expr::Neg(b) => Expr::Neg(Box::new(db_expr_exec(*b))),
        Expr::Call(f, args) => {
            let nf = db_expr_exec(*f);
            Expr::Call(Box::new(nf), db_exprs_exec(args))
        },
        Expr::Method(r, m, args) => {
            let nr = db_expr_exec(*r);
            Expr::Method(Box::new(nr), m, db_exprs_exec(args))
        },
        Expr::Index(b, sfx) => Expr::Index(Box::new(db_expr_exec(*b)), sfx),
        Expr::Binop(op, l, r) => {
            let nl = db_expr_exec(*l);
            let nr = db_expr_exec(*r);
            Expr::Binop(op, Box::new(nl), Box::new(nr))
        },
        Expr::Table(items) => Expr::Table(db_items_exec(items)),
        Expr::TableSpaced(items) => Expr::TableSpaced(db_items_exec(items)),
        Expr::Func(ps, body) => Expr::Func(ps, db_body_exec(body)),
        other => other,
    }
}

fn db_exprs_exec(args: Vec<Expr>) -> (r: Vec<Expr>)
    ensures
        exprs_model(r@) == db_exprs(exprs_model(args@)),
    decreases args,
{
    let ghost a0 = args@;
    let len = args.len();
    let mut rest = args;
    let mut out: Vec<Expr> = Vec::new();
    let mut i: usize = 0;
    while rest.len() > 0
        invariant
            len == a0.len(),
            args@ == a0,
            i <= len,
            rest@ == a0.skip(i as int),
            out@.len() == i,
            forall|j: int| 0 <= j < i ==> #[trigger] out@[j]@ == db_expr(a0[j]@),
        decreases rest@.len(),
    {
        assert(a0.skip(i as int).len() > 0);
        let x = rest.remove(0);
        assert(a0[i as int] == x);
        assert(decreases_to!(args => args@[i as int]));
        out.push(db_expr_exec(x));
        assert(rest@ =~= a0.skip(i as int + 1));
        i = i + 1;
    }
    proof {
        let a = exprs_model(out@);
        let b = db_exprs(exprs_model(a0));
        assert forall|j: int| 0 <= j < a.len() implies a[j] == b[j] by {
            assert(a[j] == out@[j]@);
            assert(exprs_model(a0)[j] == a0[j]@);
        }
        assert(a =~= b);
    }
    out
}

fn db_items_exec(items: Vec<Item>) -> (r: Vec<Item>)
    ensures
        items_model(r@) == db_items(items_model(items@)),
    decreases items,
{
    let ghost a0 = items@;
    let len = items.len();
    let mut rest = items;
    let mut out: Vec<Item> = Vec::new();
    let mut i: usize = 0;
    while rest.len() > 0
        invariant
            len == a0.len(),
            items@ == a0,
            i <= len,
            rest@ == a0.skip(i as int),
            out@.len() == i,
            forall|j: int| 0 <= j < i ==> #[trigger] out@[j]@ == db_items(items_model(a0))[j],
        decreases rest@.len(),
    {
        assert(a0.skip(i as int).len() > 0);
        let x = rest.remove(0);
        assert(a0[i as int] == x);
        assert(items_model(a0)[i as int] == x@);
        assert(decreases_to!(items => items@[i as int]));
        let nx = match x {
            Item::Pos(e) => Item::Pos(db_expr_exec(e)),
            Item::KV(k, e) => Item::KV(k, db_expr_exec(e)),
        };
        out.push(nx);
        assert(rest@ =~= a0.skip(i as int + 1));
        i = i + 1;
    }
    proof {
        let a = items_model(out@);
        let b = db_items(items_model(a0));
        assert forall|j: int| 0 <= j < a.len() implies a[j] == b[j] by {
            assert(a[j] == out@[j]@);
        }
        assert(a =~= b);
    }
    out
}

fn db_body_exec(b: FuncBody) -> (r: FuncBody)
    ensures
        r@ == db_body(b@),
    decreases b,
{
    match b {
        FuncBody::Inline(ss) => FuncBody::Inline(db_block_exec(ss)),
        FuncBody::Block(Block(ss)) => FuncBody::Block(Block(db_block_exec(ss))),
    }
}

fn db_block_exec(ss: Vec<Stmt>) -> (r: Vec<Stmt>)
    ensures
        stmts_model(r@) == db_block(stmts_model(ss@)),
    decreases ss,
{
    let ghost s0 = ss@;
    let len = ss.len();
    let mut rest = ss;
    let mut out: Vec<Stmt> = Vec::new();
    let mut i: usize = 0;
    while rest.len() > 0
        invariant
            len == s0.len(),
            ss@ == s0,
            i <= len,
            rest@ == s0.skip(i as int),
            out@.len() == i,
            forall|j: int| 0 <= j < i ==> #[trigger] out@[j]@ == db_stmt(s0[j]@),
        decreases rest@.len(),
    {
        assert(s0.skip(i as int).len() > 0);
        let st = rest.remove(0);
        assert(s0[i as int] == st);
        assert(decreases_to!(ss => ss@[i as int]));
        out.push(db_stmt_exec(st));
        assert(rest@ =~= s0.skip(i as int + 1));
        i = i + 1;
    }
    proof {
        let a = stmts_model(out@);
        let b = db_stmts(stmts_model(s0));
        assert forall|j: int| 0 <= j < a.len() implies a[j] == b[j] by {
            assert(a[j] == out@[j]@);
            assert(stmts_model(s0)[j] == s0[j]@);
        }
        assert(a =~= b);
    }
    block_rw_exec(out)
}

fn db_stmt_exec(s: Stmt) -> (r: Stmt)
    ensures
        r@ == db_stmt(s@),
    decreases s,
{
    match s {
        Stmt::Local(ns, init) => {
            let ni = match init {
                Some(e) => Some(db_expr_exec(e)),
                None => None,
            };
            Stmt::Local(ns, ni)
        },
        Stmt::Assign(l, e) => Stmt::Assign(l, db_expr_exec(e)),
        Stmt::Return(e) => Stmt::Return(db_expr_exec(e)),
        Stmt::Expr(e) => Stmt::Expr(db_expr_exec(e)),
        Stmt::MultiAssign(ls, es) => Stmt::MultiAssign(ls, db_exprs_exec(es)),
        Stmt::AssignIf { lhs, cond, then_e, else_e } => {
            let nc = db_expr_exec(cond);
            let nt = db_expr_exec(then_e);
            let ne = db_expr_exec(else_e);
            Stmt::AssignIf { lhs, cond: nc, then_e: nt, else_e: ne }
        },
        Stmt::Do(b) => Stmt::Do(Block(db_block_exec(b.0))),
        Stmt::WhileTrue(b) => Stmt::WhileTrue(Block(db_block_exec(b.0))),
        Stmt::Function { target, params, body } => Stmt::Function { target, params, body: Block(db_block_exec(body.0)) },
        Stmt::ReturnTable(es) => Stmt::ReturnTable(db_entries_exec(es)),
        Stmt::If { cond, then_b, elseifs, else_b } => {
            let nc = db_expr_exec(cond);
            let nt = db_block_exec(then_b.0);
            let na = db_arms_exec(elseifs);
            let ne = match else_b {
                Some(b) => Some(Block(db_block_exec(b.0))),
                None => None,
            };
            if_rw_exec(nc, nt, na, ne)
        },
        other => other,
    }
}

fn db_arms_exec(arms: Vec<(Expr, Block)>) -> (r: Vec<(Expr, Block)>)
    ensures
        arms_model(r@) == db_arms(arms_model(arms@)),
    decreases arms,
{
    let ghost a0 = arms@;
    let ghost am = arms_model(arms@);
    let len = arms.len();
    let mut rest = arms;
    let mut out: Vec<(Expr, Block)> = Vec::new();
    let mut i: usize = 0;
    while rest.len() > 0
        invariant
            len == a0.len(),
            arms@ == a0,
            am == arms_model(a0),
            i <= len,
            rest@ == a0.skip(i as int),
            out@.len() == i,
            forall|j: int| 0 <= j < i ==> #[trigger] arms_model(out@)[j] == db_arms(am)[j],
        decreases rest@.len(),
    {
        assert(a0.skip(i as int).len() > 0);
        let (c, b) = rest.remove(0);
        assert(a0[i as int] == (c, b));
        assert(decreases_to!(arms => arms@[i as int]));
        let nc = db_expr_exec(c);
        let nb = db_block_exec(b.0);
        let ghost old_out = out@;
        out.push((nc, Block(nb)));
        proof {
            assert forall|j: int| 0 <= j < i + 1 implies #[trigger] arms_model(out@)[j] == db_arms(am)[j] by {
                if j < i {
                    assert(arms_model(out@)[j] == arms_model(old_out)[j]);
                }
            }
        }
        assert(rest@ =~= a0.skip(i as int + 1));
        i = i + 1;
    }
    assert(arms_model(out@) =~= db_arms(am));
    out
}

fn db_entries_exec(es: Vec<(String, Expr)>) -> (r: Vec<(String, Expr)>)
    ensures
        entries_model(r@) == db_entries(entries_model(es@)),
    decreases es,
{
    let ghost a0 = es@;
    let ghost am = entries_model(es@);
    let len = es.len();
    let mut rest = es;
    let mut out: Vec<(String, Expr)> = Vec::new();
    let mut i: usize = 0;
    while rest.len() > 0
        invariant
            len == a0.len(),
            es@ == a0,
            am == entries_model(a0),
            i <= len,
            rest@ == a0.skip(i as int),
            out@.len() == i,
            forall|j: int| 0 <= j < i ==> #[trigger] entries_model(out@)[j] == db_entries(am)[j],
        decreases rest@.len(),
    {
        assert(a0.skip(i as int).len() > 0);
        let (k, e) = rest.remove(0);
        assert(a0[i as int] == (k, e));
        assert(decreases_to!(es => es@[i as int]));
        let ne = db_expr_exec(e);
        let ghost old_out = out@;
        out.push((k, ne));
        proof {
            assert forall|j: int| 0 <= j < i + 1 implies #[trigger] entries_model(out@)[j] == db_entries(am)[j] by {
                if j < i {
                    assert(entries_model(out@)[j] == entries_model(old_out)[j]);
                }
            }
        }
        assert(rest@ =~= a0.skip(i as int + 1));
        i = i + 1;
    }
    assert(entries_model(out@) =~= db_entries(am));
    out
}

/// Remove the dead branches of the module body and of every function in it.
pub fn dead_branch_block(stmts: &mut Vec<Stmt>)
    ensures
        stmts_model(final(stmts)@) == db_block(stmts_model(old(stmts)@)),
{
    let mut taken: Vec<Stmt> = Vec::new();
    std::mem::swap(&mut taken, stmts);
    let r = db_block_exec(taken);
    *stmts = r;
}

} // verus!
