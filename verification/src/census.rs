//! Name facts over an emitted Lua module: how often a name is bound
//! (local declarations, function headers, parameters), assigned, or stored
//! to (as an assignment target or a function-table slot), and whether any
//! Raw text mentions it. The loop passes prove a function's self-identity
//! from these counts.

use vstd::prelude::*;
use crate::lua::{Expr, Item, FuncBody, Stmt, Block, FnTarget, LExpr, LItem, LBody, LStmt, LTarget};
use crate::text::{decimal, str_eq, string_eq};
use crate::tokens::{has_token, str_has_token};

verus! {

broadcast use vstd::string::group_string_axioms;

/// (binding sites, assignments, stores, Raw mention).
pub open spec fn cadd(x: (nat, nat, nat, bool), y: (nat, nat, nat, bool)) -> (nat, nat, nat, bool) {
    (x.0 + y.0, x.1 + y.1, x.2 + y.2, x.3 || y.3)
}

pub open spec fn czero() -> (nat, nat, nat, bool) {
    (0, 0, 0, false)
}

pub open spec fn one_if(b: bool) -> nat {
    if b { 1 } else { 0 }
}

/// How many entries of `ns` are `f`.
pub open spec fn cnt(ns: Seq<Seq<char>>, f: Seq<char>) -> nat
    decreases ns.len(),
{
    if ns.len() == 0 {
        0
    } else {
        cnt(ns.drop_last(), f) + one_if(ns.last() == f)
    }
}

/// The spelling calls use for function-table slot `i`.
pub open spec fn slot_spelling(i: u32) -> Seq<char> {
    "__mll_fn["@ + decimal(i as nat) + "]"@
}

pub open spec fn cen_expr(e: LExpr, f: Seq<char>) -> (nat, nat, nat, bool)
    decreases e,
{
    match e {
        LExpr::Raw(t) => (0, 0, 0, has_token(t, f)),
        LExpr::Paren(b) => cen_expr(*b, f),
        LExpr::Neg(b) => cen_expr(*b, f),
        LExpr::Index(b, _) => cen_expr(*b, f),
        LExpr::Call(g, args) => cadd(cen_expr(*g, f), cen_exprs(args, f)),
        LExpr::Method(r, _, args) => cadd(cen_expr(*r, f), cen_exprs(args, f)),
        LExpr::Binop(_, l, r) => cadd(cen_expr(*l, f), cen_expr(*r, f)),
        LExpr::Table(items) => cen_items(items, f),
        LExpr::TableSpaced(items) => cen_items(items, f),
        LExpr::Func(ps, body) => cadd((cnt(ps, f), 0, 0, false), match body {
            LBody::Inline(ss) => cen_stmts(ss, f),
            LBody::Block(ss) => cen_stmts(ss, f),
        }),
        _ => czero(),
    }
}

pub open spec fn cen_exprs(s: Seq<LExpr>, f: Seq<char>) -> (nat, nat, nat, bool)
    decreases s,
{
    if s.len() == 0 {
        czero()
    } else {
        cadd(cen_exprs(s.drop_last(), f), cen_expr(s.last(), f))
    }
}

pub open spec fn cen_items(s: Seq<LItem>, f: Seq<char>) -> (nat, nat, nat, bool)
    decreases s,
{
    if s.len() == 0 {
        czero()
    } else {
        cadd(cen_items(s.drop_last(), f), match s.last() {
            LItem::Pos(e) => cen_expr(e, f),
            LItem::KV(_, e) => cen_expr(e, f),
        })
    }
}

pub open spec fn target_binds(t: LTarget, f: Seq<char>) -> nat {
    match t {
        LTarget::LocalFn(n) => one_if(n == f),
        LTarget::Assigned(n) => one_if(n == f),
        _ => 0,
    }
}

pub open spec fn target_stores(t: LTarget, f: Seq<char>) -> nat {
    match t {
        LTarget::Slot(i) => one_if(slot_spelling(i) == f),
        LTarget::Assigned(n) => one_if(n == f),
        _ => 0,
    }
}

pub open spec fn cen_stmt(s: LStmt, f: Seq<char>) -> (nat, nat, nat, bool)
    decreases s,
{
    match s {
        LStmt::Raw(t) => (0, 0, 0, has_token(t, f)),
        LStmt::Local(ns, init) => cadd((cnt(ns, f), 0, 0, false), match init {
            Some(e) => cen_expr(e, f),
            None => czero(),
        }),
        LStmt::Assign(l, e) => cadd((0, one_if(l == f), one_if(l == f), false), cen_expr(e, f)),
        LStmt::Return(e) => cen_expr(e, f),
        LStmt::Expr(e) => cen_expr(e, f),
        LStmt::If(c, t, arms, els) => cadd(cadd(cen_expr(c, f), cen_stmts(t, f)), cadd(cen_arms(arms, f), match els {
            Some(b) => cen_stmts(b, f),
            None => czero(),
        })),
        LStmt::AssignIf(l, c, t, e) => cadd(cadd((0, one_if(l == f), one_if(l == f), false), cen_expr(c, f)),
            cadd(cen_expr(t, f), cen_expr(e, f))),
        LStmt::Do(b) => cen_stmts(b, f),
        LStmt::WhileTrue(b) => cen_stmts(b, f),
        LStmt::MultiAssign(ls, es) => cadd((0, cnt(ls, f), cnt(ls, f), false), cen_exprs(es, f)),
        LStmt::Function(t, ps, b) => cadd((target_binds(t, f) + cnt(ps, f), 0, target_stores(t, f), false), cen_stmts(b, f)),
        LStmt::ReturnTable(es) => cen_entries(es, f),
        _ => czero(),
    }
}

pub open spec fn cen_stmts(s: Seq<LStmt>, f: Seq<char>) -> (nat, nat, nat, bool)
    decreases s,
{
    if s.len() == 0 {
        czero()
    } else {
        cadd(cen_stmts(s.drop_last(), f), cen_stmt(s.last(), f))
    }
}

pub open spec fn cen_arms(s: Seq<(LExpr, Seq<LStmt>)>, f: Seq<char>) -> (nat, nat, nat, bool)
    decreases s,
{
    if s.len() == 0 {
        czero()
    } else {
        cadd(cen_arms(s.drop_last(), f), cadd(cen_expr(s.last().0, f), cen_stmts(s.last().1, f)))
    }
}

pub open spec fn cen_entries(s: Seq<(Seq<char>, LExpr)>, f: Seq<char>) -> (nat, nat, nat, bool)
    decreases s,
{
    if s.len() == 0 {
        czero()
    } else {
        cadd(cen_entries(s.drop_last(), f), cen_expr(s.last().1, f))
    }
}

// ---------------------------------------------------------------------
// Computing the census (counts saturate at 3: only 0, 1, 2 are read)
// ---------------------------------------------------------------------

pub open spec fn cap3(n: nat) -> nat {
    if n < 3 { n } else { 3 }
}

pub open spec fn capped(c: (nat, nat, nat, bool)) -> (nat, nat, nat, bool) {
    (cap3(c.0), cap3(c.1), cap3(c.2), c.3)
}

/// A saturated census.
pub struct Census {
    pub binds: u8,
    pub assigns: u8,
    pub stores: u8,
    pub raw: bool,
}

impl Census {
    pub open spec fn v(&self) -> (nat, nat, nat, bool) {
        (self.binds as nat, self.assigns as nat, self.stores as nat, self.raw)
    }

    fn zero() -> (r: Census)
        ensures
            r.v() == capped(czero()),
            r.binds <= 3 && r.assigns <= 3 && r.stores <= 3,
    {
        Census { binds: 0, assigns: 0, stores: 0, raw: false }
    }

    fn of(b: usize, a: usize, s: usize, raw: bool) -> (r: Census)
        ensures
            r.v() == capped((b as nat, a as nat, s as nat, raw)),
            r.binds <= 3 && r.assigns <= 3 && r.stores <= 3,
    {
        Census {
            binds: if b < 3 { b as u8 } else { 3 },
            assigns: if a < 3 { a as u8 } else { 3 },
            stores: if s < 3 { s as u8 } else { 3 },
            raw,
        }
    }

    fn plus(&self, o: &Census) -> (r: Census)
        requires
            self.binds <= 3 && self.assigns <= 3 && self.stores <= 3,
            o.binds <= 3 && o.assigns <= 3 && o.stores <= 3,
        ensures
            r.binds <= 3 && r.assigns <= 3 && r.stores <= 3,
            forall|x: (nat, nat, nat, bool), y: (nat, nat, nat, bool)|
                self.v() == capped(x) && o.v() == capped(y) ==> #[trigger] r.v() == capped(#[trigger] cadd(x, y)),
    {
        let b = self.binds + o.binds;
        let a = self.assigns + o.assigns;
        let s = self.stores + o.stores;
        Census {
            binds: if b < 3 { b } else { 3 },
            assigns: if a < 3 { a } else { 3 },
            stores: if s < 3 { s } else { 3 },
            raw: self.raw || o.raw,
        }
    }
}

/// How many of `ns` are `f` (saturated).
fn cnt_exec(ns: &Vec<String>, f: &str) -> (r: usize)
    ensures
        r as nat == cap3(cnt(crate::lua::strs_model(ns@), f@)),
{
    let mut c: usize = 0;
    let mut i: usize = 0;
    while i < ns.len()
        invariant
            i <= ns@.len(),
            c as nat == cap3(cnt(crate::lua::strs_model(ns@.take(i as int)), f@)),
        decreases ns@.len() - i,
    {
        assert(crate::lua::strs_model(ns@.take(i as int + 1)).drop_last() =~= crate::lua::strs_model(ns@.take(i as int)));
        assert(crate::lua::strs_model(ns@.take(i as int + 1)).last() == ns@[i as int]@);
        if str_eq(ns[i].as_str(), f) && c < 3 {
            c = c + 1;
        }
        i = i + 1;
    }
    assert(ns@.take(ns@.len() as int) =~= ns@);
    c
}

fn slot_spelling_string(i: u32) -> (r: String)
    ensures
        r@ == slot_spelling(i),
{
    let mut s = crate::text::string_from("__mll_fn[");
    let d = crate::text::decimal_string(i as u64);
    crate::text::push_str(&mut s, d.as_str());
    crate::text::push_str(&mut s, "]");
    s
}

pub fn census_expr(e: &Expr, f: &str) -> (r: Census)
    ensures
        r.v() == capped(cen_expr(e@, f@)),
        r.binds <= 3 && r.assigns <= 3 && r.stores <= 3,
    decreases e,
{
    match e {
        Expr::Raw(t) => Census::of(0, 0, 0, str_has_token(t.as_str(), f)),
        Expr::Paren(b) => census_expr(b, f),
        Expr::Neg(b) => census_expr(b, f),
        Expr::Index(b, _) => census_expr(b, f),
        Expr::Call(g, args) => census_expr(g, f).plus(&census_exprs(args, f)),
        Expr::Method(r, _, args) => census_expr(r, f).plus(&census_exprs(args, f)),
        Expr::Binop(_, l, r) => census_expr(l, f).plus(&census_expr(r, f)),
        Expr::Table(items) => census_items(items, f),
        Expr::TableSpaced(items) => census_items(items, f),
        Expr::Func(ps, body) => {
            let head = Census::of(cnt_exec(ps, f), 0, 0, false);
            let inner = match body {
                FuncBody::Inline(ss) => {
                    assert(body@ == LBody::Inline(crate::lua::stmts_model(ss@)));
                    census_stmts(ss, f)
                },
                FuncBody::Block(Block(ss)) => {
                    assert(body@ == LBody::Block(crate::lua::stmts_model(ss@)));
                    census_stmts(ss, f)
                },
            };
            head.plus(&inner)
        },
        _ => Census::zero(),
    }
}

fn census_exprs(s: &Vec<Expr>, f: &str) -> (r: Census)
    ensures
        r.v() == capped(cen_exprs(crate::lua::exprs_model(s@), f@)),
        r.binds <= 3 && r.assigns <= 3 && r.stores <= 3,
    decreases s,
{
    let mut acc = Census::zero();
    let mut i: usize = 0;
    while i < s.len()
        invariant
            i <= s@.len(),
            acc.binds <= 3 && acc.assigns <= 3 && acc.stores <= 3,
            acc.v() == capped(cen_exprs(crate::lua::exprs_model(s@.take(i as int)), f@)),
        decreases s@.len() - i,
    {
        assert(decreases_to!(s => s@[i as int]));
        assert(crate::lua::exprs_model(s@.take(i as int + 1)).drop_last() =~= crate::lua::exprs_model(s@.take(i as int)));
        let c = census_expr(&s[i], f);
        acc = acc.plus(&c);
        i = i + 1;
    }
    assert(s@.take(s@.len() as int) =~= s@);
    acc
}

fn census_items(s: &Vec<Item>, f: &str) -> (r: Census)
    ensures
        r.v() == capped(cen_items(crate::lua::items_model(s@), f@)),
        r.binds <= 3 && r.assigns <= 3 && r.stores <= 3,
    decreases s,
{
    let mut acc = Census::zero();
    let mut i: usize = 0;
    while i < s.len()
        invariant
            i <= s@.len(),
            acc.binds <= 3 && acc.assigns <= 3 && acc.stores <= 3,
            acc.v() == capped(cen_items(crate::lua::items_model(s@.take(i as int)), f@)),
        decreases s@.len() - i,
    {
        assert(decreases_to!(s => s@[i as int]));
        assert(crate::lua::items_model(s@.take(i as int + 1)).drop_last() =~= crate::lua::items_model(s@.take(i as int)));
        let c = match &s[i] {
            Item::Pos(e) => census_expr(e, f),
            Item::KV(_, e) => census_expr(e, f),
        };
        acc = acc.plus(&c);
        i = i + 1;
    }
    assert(s@.take(s@.len() as int) =~= s@);
    acc
}

pub fn census_stmt(s: &Stmt, f: &str) -> (r: Census)
    ensures
        r.v() == capped(cen_stmt(s@, f@)),
        r.binds <= 3 && r.assigns <= 3 && r.stores <= 3,
    decreases s,
{
    match s {
        Stmt::Raw(t) => Census::of(0, 0, 0, str_has_token(t.as_str(), f)),
        Stmt::Local(ns, init) => {
            let head = Census::of(cnt_exec(ns, f), 0, 0, false);
            let tail = match init {
                Some(e) => census_expr(e, f),
                None => Census::zero(),
            };
            head.plus(&tail)
        },
        Stmt::Assign(l, e) => {
            let hit: usize = if str_eq(l.as_str(), f) { 1 } else { 0 };
            Census::of(0, hit, hit, false).plus(&census_expr(e, f))
        },
        Stmt::Return(e) => census_expr(e, f),
        Stmt::Expr(e) => census_expr(e, f),
        Stmt::If { cond, then_b, elseifs, else_b } => {
            let a = census_expr(cond, f).plus(&census_stmts(&then_b.0, f));
            let b = census_arms(elseifs, f);
            let c = match else_b {
                Some(eb) => census_stmts(&eb.0, f),
                None => Census::zero(),
            };
            a.plus(&b.plus(&c))
        },
        Stmt::AssignIf { lhs, cond, then_e, else_e } => {
            let hit: usize = if str_eq(lhs.as_str(), f) { 1 } else { 0 };
            let a = Census::of(0, hit, hit, false).plus(&census_expr(cond, f));
            a.plus(&census_expr(then_e, f).plus(&census_expr(else_e, f)))
        },
        Stmt::Do(b) => census_stmts(&b.0, f),
        Stmt::WhileTrue(b) => census_stmts(&b.0, f),
        Stmt::MultiAssign(ls, es) => {
            let k = cnt_exec(ls, f);
            Census::of(0, k, k, false).plus(&census_exprs(es, f))
        },
        Stmt::Function { target, params, body } => {
            let tb: usize = match target {
                FnTarget::LocalFn(n) => if str_eq(n.as_str(), f) { 1 } else { 0 },
                FnTarget::Assigned(n) => if str_eq(n.as_str(), f) { 1 } else { 0 },
                _ => 0,
            };
            let ts: usize = match target {
                FnTarget::Slot(i) => {
                    let sp = slot_spelling_string(*i);
                    if str_eq(sp.as_str(), f) { 1 } else { 0 }
                },
                FnTarget::Assigned(n) => if str_eq(n.as_str(), f) { 1 } else { 0 },
                _ => 0,
            };
            let pc = cnt_exec(params, f);
            Census::of(tb + pc, 0, ts, false).plus(&census_stmts(&body.0, f))
        },
        Stmt::ReturnTable(es) => census_entries(es, f),
        _ => Census::zero(),
    }
}

pub fn census_stmts(s: &Vec<Stmt>, f: &str) -> (r: Census)
    ensures
        r.v() == capped(cen_stmts(crate::lua::stmts_model(s@), f@)),
        r.binds <= 3 && r.assigns <= 3 && r.stores <= 3,
    decreases s,
{
    let mut acc = Census::zero();
    let mut i: usize = 0;
    while i < s.len()
        invariant
            i <= s@.len(),
            acc.binds <= 3 && acc.assigns <= 3 && acc.stores <= 3,
            acc.v() == capped(cen_stmts(crate::lua::stmts_model(s@.take(i as int)), f@)),
        decreases s@.len() - i,
    {
        assert(decreases_to!(s => s@[i as int]));
        assert(crate::lua::stmts_model(s@.take(i as int + 1)).drop_last() =~= crate::lua::stmts_model(s@.take(i as int)));
        let c = census_stmt(&s[i], f);
        acc = acc.plus(&c);
        i = i + 1;
    }
    assert(s@.take(s@.len() as int) =~= s@);
    acc
}

fn census_arms(s: &Vec<(Expr, Block)>, f: &str) -> (r: Census)
    ensures
        r.v() == capped(cen_arms(crate::lua::arms_model(s@), f@)),
        r.binds <= 3 && r.assigns <= 3 && r.stores <= 3,
    decreases s,
{
    let mut acc = Census::zero();
    let mut i: usize = 0;
    while i < s.len()
        invariant
            i <= s@.len(),
            acc.binds <= 3 && acc.assigns <= 3 && acc.stores <= 3,
            acc.v() == capped(cen_arms(crate::lua::arms_model(s@.take(i as int)), f@)),
        decreases s@.len() - i,
    {
        assert(decreases_to!(s => s@[i as int]));
        assert(crate::lua::arms_model(s@.take(i as int + 1)).drop_last() =~= crate::lua::arms_model(s@.take(i as int)));
        let c = census_expr(&s[i].0, f).plus(&census_stmts(&s[i].1.0, f));
        acc = acc.plus(&c);
        i = i + 1;
    }
    assert(s@.take(s@.len() as int) =~= s@);
    acc
}

fn census_entries(s: &Vec<(String, Expr)>, f: &str) -> (r: Census)
    ensures
        r.v() == capped(cen_entries(crate::lua::entries_model(s@), f@)),
        r.binds <= 3 && r.assigns <= 3 && r.stores <= 3,
    decreases s,
{
    let mut acc = Census::zero();
    let mut i: usize = 0;
    while i < s.len()
        invariant
            i <= s@.len(),
            acc.binds <= 3 && acc.assigns <= 3 && acc.stores <= 3,
            acc.v() == capped(cen_entries(crate::lua::entries_model(s@.take(i as int)), f@)),
        decreases s@.len() - i,
    {
        assert(decreases_to!(s => s@[i as int]));
        assert(crate::lua::entries_model(s@.take(i as int + 1)).drop_last() =~= crate::lua::entries_model(s@.take(i as int)));
        let c = census_expr(&s[i].1, f);
        acc = acc.plus(&c);
        i = i + 1;
    }
    assert(s@.take(s@.len() as int) =~= s@);
    acc
}

} // verus!
