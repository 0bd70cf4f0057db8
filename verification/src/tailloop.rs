//! Self-tail-call → loop conversion.
//!
//! A named function whose body holds `return <self>(e1..en)` in
//! statement-tree tail position (the last statement of the body, or of an
//! `if`/`elseif`/`else` arm or `do` block that is itself in tail position)
//! becomes
//!
//! ```text
//! function(p1..pn)
//!     while true do
//!         local w1 = p1 … local wn = pn
//!         <body, every p_i renamed to w_i>
//!     end
//! end
//! ```
//!
//! where each tail self-call is the simultaneous update `p1, …, pn = e1',
//! …, en'` (one multiple assignment: Lua evaluates the whole right-hand
//! side first). The body touches only the per-iteration copies, so a
//! closure built in one iteration sees that iteration's values, as under
//! recursion. When the body can fall off its end, the loop body ends with
//! `do return end ::continue::` and every update jumps `goto continue`.
//!
//! Gates: the callee must provably be this function (one binding site for
//! `local function f`; the forward declaration plus the header for
//! `f = function`; one store and no Raw mention of the table for a
//! function-table slot), the rename must be able to see every mention of
//! a parameter, a name-called function must return one value on every
//! return, and the copies must fit the locals budget.

use vstd::prelude::*;
use crate::lua::{Expr, Item, FuncBody, Stmt, Block, FnTarget, LExpr, LItem, LBody, LStmt, LTarget,
    strs_model, stmts_model, exprs_model, items_model, arms_model, entries_model, header_text, block_text};
use crate::text::{is_ident_text, decimal, digit_char, repeat, str_eq, string_eq};
use crate::tokens::{has_token, mentions_any, str_has_token, text_mentions, is_plain_ident};
use crate::luaopt::{single_return_callee, block_diverges, count_locals, LOCAL_LIMIT};
use crate::census::{cen_stmts, slot_spelling};
use crate::demand::NameSet;

verus! {

broadcast use vstd::string::group_string_axioms;

// ---------------------------------------------------------------------
// The self-name
// ---------------------------------------------------------------------

/// The self-name a function's target binds, as body calls spell it.
pub enum SName {
    /// `local function f(…)`.
    LocalFn(Seq<char>),
    /// `f = function(…)`, a forward-declared local.
    Assigned(Seq<char>),
    /// `__mll_fn[i] = function(…)`; the full `__mll_fn[i]` spelling.
    Slot(Seq<char>),
}

pub open spec fn spelling(n: SName) -> Seq<char> {
    match n {
        SName::LocalFn(s) => s,
        SName::Assigned(s) => s,
        SName::Slot(s) => s,
    }
}

/// Executable self-name.
pub enum SelfName {
    LocalFn(String),
    Assigned(String),
    Slot(String),
}

impl View for SelfName {
    type V = SName;

    open spec fn view(&self) -> SName {
        match self {
            SelfName::LocalFn(s) => SName::LocalFn(s@),
            SelfName::Assigned(s) => SName::Assigned(s@),
            SelfName::Slot(s) => SName::Slot(s@),
        }
    }
}

impl SelfName {
    pub fn spelling(&self) -> (r: &String)
        ensures
            r@ == spelling(self@),
    {
        match self {
            SelfName::LocalFn(s) => s,
            SelfName::Assigned(s) => s,
            SelfName::Slot(s) => s,
        }
    }
}

pub open spec fn distinct(ps: Seq<Seq<char>>) -> bool {
    forall|i: int, j: int| 0 <= i < j < ps.len() ==> ps[i] != ps[j]
}

pub open spec fn all_ident(ps: Seq<Seq<char>>) -> bool {
    forall|i: int| 0 <= i < ps.len() ==> is_ident_text(#[trigger] ps[i])
}

/// The self-name of a function definition: one of the three target forms,
/// plain-identifier names and parameters, no duplicate parameter.
pub open spec fn self_target(t: LTarget, ps: Seq<Seq<char>>) -> Option<SName> {
    let n = match t {
        LTarget::LocalFn(x) => if is_ident_text(x) { Some(SName::LocalFn(x)) } else { None },
        LTarget::Assigned(x) => if is_ident_text(x) { Some(SName::Assigned(x)) } else { None },
        LTarget::Slot(i) => Some(SName::Slot(slot_spelling(i))),
        LTarget::ThunkSlot(_) => None,
    };
    if all_ident(ps) && distinct(ps) { n } else { None }
}

/// A `local` earlier in the module declares `f`.
pub open spec fn declared_before(ss: Seq<LStmt>, k: int, f: Seq<char>) -> bool {
    exists|j: int| 0 <= j < k && #[trigger] local_declares(ss[j], f)
}

pub open spec fn local_declares(s: LStmt, f: Seq<char>) -> bool {
    match s {
        LStmt::Local(ns, _) => ns.contains(f),
        _ => false,
    }
}

/// The self-identity gate for the module-level definition at `k`.
pub open spec fn qualifies(ss: Seq<LStmt>, k: int, n: SName) -> bool {
    match n {
        SName::LocalFn(f) => {
            let c = cen_stmts(ss, f);
            c.0 == 1 && c.1 == 0 && !c.3
        },
        SName::Assigned(f) => {
            let c = cen_stmts(ss, f);
            c.0 == 2 && c.1 == 0 && !c.3 && declared_before(ss, k, f)
        },
        SName::Slot(s) => cen_stmts(ss, s).2 == 1 && !cen_stmts(ss, "__mll_fn"@).3,
    }
}

// ---------------------------------------------------------------------
// Tail sites
// ---------------------------------------------------------------------

/// `e` with its grouping parens peeled.
pub open spec fn peel(e: LExpr) -> LExpr
    decreases e,
{
    match e {
        LExpr::Paren(b) => peel(*b),
        _ => e,
    }
}

/// `f` refers to the function itself.
pub open spec fn is_self_ref(f: LExpr, n: SName) -> bool {
    match f {
        LExpr::Name(s) => s == spelling(n),
        LExpr::Index(b, suf) => match n {
            SName::Slot(s) => (match *b {
                LExpr::Name(bn) => bn == "__mll_fn"@,
                _ => false,
            }) && "__mll_fn"@ + suf == s,
            _ => false,
        },
        _ => false,
    }
}

/// The arguments of a rewritable self-call (with zero parameters only a
/// zero-argument call qualifies: no assignment could carry extra
/// arguments' evaluation).
pub open spec fn site_args(e: LExpr, n: SName, ps: Seq<Seq<char>>) -> Option<Seq<LExpr>> {
    match peel(e) {
        LExpr::Call(f, args) => if is_self_ref(*f, n) && !(ps.len() == 0 && args.len() > 0) {
            Some(args)
        } else {
            None
        },
        _ => None,
    }
}

/// Some tail position of `ss` returns a rewritable self-call.
pub open spec fn tail_has_site(ss: Seq<LStmt>, n: SName, ps: Seq<Seq<char>>) -> bool
    decreases ss,
{
    if ss.len() == 0 {
        false
    } else {
        match ss.last() {
            LStmt::If(_, t, arms, els) => tail_has_site(t, n, ps) || arms_have_site(arms, n, ps) || match els {
                Some(b) => tail_has_site(b, n, ps),
                None => false,
            },
            LStmt::Do(b) => tail_has_site(b, n, ps),
            LStmt::Return(e) => site_args(e, n, ps) is Some,
            _ => false,
        }
    }
}

pub open spec fn arms_have_site(arms: Seq<(LExpr, Seq<LStmt>)>, n: SName, ps: Seq<Seq<char>>) -> bool
    decreases arms,
{
    arms.len() > 0 && (arms_have_site(arms.drop_last(), n, ps) || tail_has_site(arms.last().1, n, ps))
}

/// Every tail self-call replaced by the parameter update (and, in the goto
/// shape, the jump to the loop's continue label).
pub open spec fn rw_tails(ss: Seq<LStmt>, n: SName, ps: Seq<Seq<char>>, goto: bool) -> Seq<LStmt>
    decreases ss,
{
    if ss.len() == 0 {
        ss
    } else {
        match ss.last() {
            LStmt::If(c, t, arms, els) => ss.drop_last().push(LStmt::If(c, rw_tails(t, n, ps, goto),
                rw_arms(arms, n, ps, goto), match els {
                Some(b) => Some(rw_tails(b, n, ps, goto)),
                None => None,
            })),
            LStmt::Do(b) => ss.drop_last().push(LStmt::Do(rw_tails(b, n, ps, goto))),
            LStmt::Return(e) => match site_args(e, n, ps) {
                Some(args) => ss.drop_last() + site_update(ps, args, goto),
                None => ss,
            },
            _ => ss,
        }
    }
}

pub open spec fn rw_arms(arms: Seq<(LExpr, Seq<LStmt>)>, n: SName, ps: Seq<Seq<char>>, goto: bool) -> Seq<(LExpr, Seq<LStmt>)>
    decreases arms,
{
    Seq::new(arms.len(), |i: int| if 0 <= i < arms.len() {
        (arms[i].0, rw_tails(arms[i].1, n, ps, goto))
    } else {
        (LExpr::Name(Seq::empty()), Seq::empty())
    })
}

/// What a rewritten site becomes.
pub open spec fn site_update(ps: Seq<Seq<char>>, args: Seq<LExpr>, goto: bool) -> Seq<LStmt> {
    (if ps.len() > 0 { seq![LStmt::MultiAssign(ps, args)] } else { Seq::empty() })
        + (if goto { seq![LStmt::Goto("continue"@)] } else { Seq::empty() })
}

// ---------------------------------------------------------------------
// Single-return proof (name-called functions)
// ---------------------------------------------------------------------

/// A return operand yields exactly one value.
pub open spec fn sr_operand(e: LExpr, n: SName) -> bool {
    match e {
        LExpr::Paren(_) => true,
        LExpr::Call(f, _) => single_return_callee(*f) || is_self_ref(*f, n) || *f == LExpr::Name("error_"@),
        LExpr::Method(_, _, _) => false,
        LExpr::Raw(_) => false,
        _ => true,
    }
}

/// Every return of this function's own scope yields one value (nested
/// function bodies are their own scopes).
pub open spec fn sr_body(ss: Seq<LStmt>, n: SName) -> bool
    decreases ss,
{
    ss.len() == 0 || (sr_body(ss.drop_last(), n) && sr_stmt(ss.last(), n))
}

pub open spec fn sr_stmt(s: LStmt, n: SName) -> bool
    decreases s,
{
    match s {
        LStmt::Return(e) => sr_operand(e, n),
        LStmt::ReturnNone => false,
        LStmt::Raw(t) => !has_token(t, "return"@),
        LStmt::If(_, t, arms, els) => sr_body(t, n) && sr_arms(arms, n) && match els {
            Some(b) => sr_body(b, n),
            None => true,
        },
        LStmt::Do(b) => sr_body(b, n),
        LStmt::WhileTrue(b) => sr_body(b, n),
        _ => true,
    }
}

pub open spec fn sr_arms(arms: Seq<(LExpr, Seq<LStmt>)>, n: SName) -> bool
    decreases arms,
{
    arms.len() == 0 || (sr_arms(arms.drop_last(), n) && sr_body(arms.last().1, n))
}

// ---------------------------------------------------------------------
// Rename blocking
// ---------------------------------------------------------------------

/// A rendered lvalue: an exact parameter is renamable; a composite
/// spelling mentioning one is not provably a variable reference.
pub open spec fn lv_blocked(l: Seq<char>, ps: Seq<Seq<char>>) -> bool {
    !ps.contains(l) && mentions_any(l, ps)
}

pub open spec fn lvs_blocked(ls: Seq<Seq<char>>, ps: Seq<Seq<char>>) -> bool {
    exists|i: int| 0 <= i < ls.len() && lv_blocked(#[trigger] ls[i], ps)
}

/// A nested header that would shadow or rebind a parameter.
pub open spec fn header_blocked(t: LTarget, hps: Seq<Seq<char>>, ps: Seq<Seq<char>>) -> bool {
    (match t {
        LTarget::LocalFn(x) => mentions_any(x, ps),
        LTarget::Assigned(x) => mentions_any(x, ps),
        LTarget::Slot(_) => ps.contains("__mll_fn"@),
        LTarget::ThunkSlot(_) => ps.contains("__mll_tkf"@),
    }) || exists|i: int| 0 <= i < hps.len() && ps.contains(#[trigger] hps[i])
}

/// Some mention of a parameter that the scoped rename cannot prove to be
/// a plain variable occurrence.
pub open spec fn blk_expr(e: LExpr, ps: Seq<Seq<char>>) -> bool
    decreases e,
{
    match e {
        LExpr::Name(s) => !ps.contains(s) && !is_ident_text(s) && mentions_any(s, ps),
        LExpr::Raw(t) => mentions_any(t, ps),
        LExpr::Lit(_) => false,
        LExpr::Func(_, body) => match body {
            LBody::Inline(ss) => blk_stmts(ss, ps),
            LBody::Block(ss) => blk_stmts(ss, ps),
        },
        LExpr::Paren(b) => blk_expr(*b, ps),
        LExpr::Neg(b) => blk_expr(*b, ps),
        LExpr::Index(b, _) => blk_expr(*b, ps),
        LExpr::Call(f, args) => blk_expr(*f, ps) || blk_exprs(args, ps),
        LExpr::Method(r, _, args) => blk_expr(*r, ps) || blk_exprs(args, ps),
        LExpr::Binop(_, l, r) => blk_expr(*l, ps) || blk_expr(*r, ps),
        LExpr::Table(items) => blk_items(items, ps),
        LExpr::TableSpaced(items) => blk_items(items, ps),
    }
}

pub open spec fn blk_exprs(s: Seq<LExpr>, ps: Seq<Seq<char>>) -> bool
    decreases s,
{
    s.len() > 0 && (blk_exprs(s.drop_last(), ps) || blk_expr(s.last(), ps))
}

pub open spec fn blk_items(s: Seq<LItem>, ps: Seq<Seq<char>>) -> bool
    decreases s,
{
    s.len() > 0 && (blk_items(s.drop_last(), ps) || match s.last() {
        LItem::Pos(e) => blk_expr(e, ps),
        LItem::KV(_, e) => blk_expr(e, ps),
    })
}

pub open spec fn blk_stmt(s: LStmt, ps: Seq<Seq<char>>) -> bool
    decreases s,
{
    match s {
        LStmt::Raw(t) => mentions_any(t, ps),
        LStmt::Local(_, init) => match init {
            Some(e) => blk_expr(e, ps),
            None => false,
        },
        LStmt::Assign(l, e) => lv_blocked(l, ps) || blk_expr(e, ps),
        LStmt::AssignIf(l, c, t, e) => lv_blocked(l, ps) || blk_expr(c, ps) || blk_expr(t, ps) || blk_expr(e, ps),
        LStmt::MultiAssign(ls, es) => lvs_blocked(ls, ps) || blk_exprs(es, ps),
        LStmt::Function(t, hps, b) => header_blocked(t, hps, ps) || blk_stmts(b, ps),
        LStmt::Return(e) => blk_expr(e, ps),
        LStmt::Expr(e) => blk_expr(e, ps),
        LStmt::If(c, t, arms, els) => blk_expr(c, ps) || blk_stmts(t, ps) || blk_arms(arms, ps) || match els {
            Some(b) => blk_stmts(b, ps),
            None => false,
        },
        LStmt::Do(b) => blk_stmts(b, ps),
        LStmt::WhileTrue(b) => blk_stmts(b, ps),
        LStmt::ReturnTable(es) => blk_entries(es, ps),
        _ => false,
    }
}

pub open spec fn blk_stmts(s: Seq<LStmt>, ps: Seq<Seq<char>>) -> bool
    decreases s,
{
    s.len() > 0 && (blk_stmts(s.drop_last(), ps) || blk_stmt(s.last(), ps))
}

pub open spec fn blk_arms(s: Seq<(LExpr, Seq<LStmt>)>, ps: Seq<Seq<char>>) -> bool
    decreases s,
{
    s.len() > 0 && (blk_arms(s.drop_last(), ps) || blk_expr(s.last().0, ps) || blk_stmts(s.last().1, ps))
}

pub open spec fn blk_entries(s: Seq<(Seq<char>, LExpr)>, ps: Seq<Seq<char>>) -> bool
    decreases s,
{
    s.len() > 0 && (blk_entries(s.drop_last(), ps) || blk_expr(s.last().1, ps))
}

// ---------------------------------------------------------------------
// The scoped rename
// ---------------------------------------------------------------------

/// The first position of `s` in `ps` (`ps.len()` when absent).
pub open spec fn pos_of(ps: Seq<Seq<char>>, s: Seq<char>) -> nat
    decreases ps.len(),
{
    if ps.len() == 0 {
        0
    } else if ps[0] == s {
        0
    } else {
        pos_of(ps.drop_first(), s) + 1
    }
}

/// A name under the rename `ps[i] → ws[i]`, minus the shadowed names.
pub open spec fn ren_name(s: Seq<char>, ps: Seq<Seq<char>>, ws: Seq<Seq<char>>, sh: Set<Seq<char>>) -> Seq<char> {
    if !sh.contains(s) && ps.contains(s) { ws[pos_of(ps, s) as int] } else { s }
}

pub open spec fn ren_names(ls: Seq<Seq<char>>, ps: Seq<Seq<char>>, ws: Seq<Seq<char>>, sh: Set<Seq<char>>) -> Seq<Seq<char>> {
    Seq::new(ls.len(), |i: int| ren_name(ls[i], ps, ws, sh))
}

pub open spec fn ren_expr(e: LExpr, ps: Seq<Seq<char>>, ws: Seq<Seq<char>>, sh: Set<Seq<char>>) -> LExpr
    decreases e,
{
    match e {
        LExpr::Name(s) => LExpr::Name(ren_name(s, ps, ws, sh)),
        LExpr::Paren(b) => LExpr::Paren(Box::new(ren_expr(*b, ps, ws, sh))),
        LExpr::Neg(b) => LExpr::Neg(Box::new(ren_expr(*b, ps, ws, sh))),
        LExpr::Index(b, suf) => LExpr::Index(Box::new(ren_expr(*b, ps, ws, sh)), suf),
        LExpr::Call(f, args) => LExpr::Call(Box::new(ren_expr(*f, ps, ws, sh)), ren_exprs(args, ps, ws, sh)),
        LExpr::Method(r, m, args) => LExpr::Method(Box::new(ren_expr(*r, ps, ws, sh)), m, ren_exprs(args, ps, ws, sh)),
        LExpr::Binop(op, l, r) => LExpr::Binop(op, Box::new(ren_expr(*l, ps, ws, sh)), Box::new(ren_expr(*r, ps, ws, sh))),
        LExpr::Table(items) => LExpr::Table(ren_items(items, ps, ws, sh)),
        LExpr::TableSpaced(items) => LExpr::TableSpaced(ren_items(items, ps, ws, sh)),
        LExpr::Func(fps, body) => LExpr::Func(fps, match body {
            LBody::Inline(ss) => LBody::Inline(ren_block(ss, ps, ws, sh + fps.to_set())),
            LBody::Block(ss) => LBody::Block(ren_block(ss, ps, ws, sh + fps.to_set())),
        }),
        _ => e,
    }
}

pub open spec fn ren_exprs(s: Seq<LExpr>, ps: Seq<Seq<char>>, ws: Seq<Seq<char>>, sh: Set<Seq<char>>) -> Seq<LExpr>
    decreases s,
{
    Seq::new(s.len(), |i: int| if 0 <= i < s.len() { ren_expr(s[i], ps, ws, sh) } else { LExpr::Name(Seq::empty()) })
}

pub open spec fn ren_items(s: Seq<LItem>, ps: Seq<Seq<char>>, ws: Seq<Seq<char>>, sh: Set<Seq<char>>) -> Seq<LItem>
    decreases s,
{
    Seq::new(s.len(), |i: int| if 0 <= i < s.len() {
        match s[i] {
            LItem::Pos(e) => LItem::Pos(ren_expr(e, ps, ws, sh)),
            LItem::KV(k, e) => LItem::KV(k, ren_expr(e, ps, ws, sh)),
        }
    } else {
        LItem::Pos(LExpr::Name(Seq::empty()))
    })
}

/// The shadow set for the statements after `s`: a `local` shadows for the
/// rest of its block.
pub open spec fn next_shadow(s: LStmt, sh: Set<Seq<char>>) -> Set<Seq<char>> {
    match s {
        LStmt::Local(ns, _) => sh + ns.to_set(),
        _ => sh,
    }
}

pub open spec fn ren_block(ss: Seq<LStmt>, ps: Seq<Seq<char>>, ws: Seq<Seq<char>>, sh: Set<Seq<char>>) -> Seq<LStmt>
    decreases ss,
{
    if ss.len() == 0 {
        ss
    } else {
        seq![ren_stmt(ss[0], ps, ws, sh)] + ren_block(ss.drop_first(), ps, ws, next_shadow(ss[0], sh))
    }
}

pub open spec fn ren_stmt(s: LStmt, ps: Seq<Seq<char>>, ws: Seq<Seq<char>>, sh: Set<Seq<char>>) -> LStmt
    decreases s,
{
    match s {
        LStmt::Local(ns, init) => LStmt::Local(ns, match init {
            Some(e) => Some(ren_expr(e, ps, ws, sh)),
            None => None,
        }),
        LStmt::Assign(l, e) => LStmt::Assign(ren_name(l, ps, ws, sh), ren_expr(e, ps, ws, sh)),
        LStmt::MultiAssign(ls, es) => LStmt::MultiAssign(ren_names(ls, ps, ws, sh), ren_exprs(es, ps, ws, sh)),
        LStmt::AssignIf(l, c, t, e) => LStmt::AssignIf(ren_name(l, ps, ws, sh), ren_expr(c, ps, ws, sh),
            ren_expr(t, ps, ws, sh), ren_expr(e, ps, ws, sh)),
        LStmt::Function(t, hps, b) => LStmt::Function(t, hps, ren_block(b, ps, ws, sh)),
        LStmt::Return(e) => LStmt::Return(ren_expr(e, ps, ws, sh)),
        LStmt::Expr(e) => LStmt::Expr(ren_expr(e, ps, ws, sh)),
        LStmt::If(c, t, arms, els) => LStmt::If(ren_expr(c, ps, ws, sh), ren_block(t, ps, ws, sh),
            ren_arms(arms, ps, ws, sh), match els {
            Some(b) => Some(ren_block(b, ps, ws, sh)),
            None => None,
        }),
        LStmt::Do(b) => LStmt::Do(ren_block(b, ps, ws, sh)),
        LStmt::WhileTrue(b) => LStmt::WhileTrue(ren_block(b, ps, ws, sh)),
        LStmt::ReturnTable(es) => LStmt::ReturnTable(ren_entries(es, ps, ws, sh)),
        _ => s,
    }
}

pub open spec fn ren_arms(s: Seq<(LExpr, Seq<LStmt>)>, ps: Seq<Seq<char>>, ws: Seq<Seq<char>>, sh: Set<Seq<char>>) -> Seq<(LExpr, Seq<LStmt>)>
    decreases s,
{
    Seq::new(s.len(), |i: int| if 0 <= i < s.len() {
        (ren_expr(s[i].0, ps, ws, sh), ren_block(s[i].1, ps, ws, sh))
    } else {
        (LExpr::Name(Seq::empty()), Seq::empty())
    })
}

pub open spec fn ren_entries(s: Seq<(Seq<char>, LExpr)>, ps: Seq<Seq<char>>, ws: Seq<Seq<char>>, sh: Set<Seq<char>>) -> Seq<(Seq<char>, LExpr)>
    decreases s,
{
    Seq::new(s.len(), |i: int| if 0 <= i < s.len() {
        (s[i].0, ren_expr(s[i].1, ps, ws, sh))
    } else {
        (Seq::empty(), LExpr::Name(Seq::empty()))
    })
}

// ---------------------------------------------------------------------
// Fresh names
// ---------------------------------------------------------------------

/// Candidate `i` with `k` underscores after the `_w` prefix.
pub open spec fn cand(k: nat, i: nat) -> Seq<char> {
    "_w"@ + repeat("_"@, k) + decimal(i)
}

/// No candidate `0..n` with `k` underscores is a token of `text`.
pub open spec fn free_at(text: Seq<char>, n: nat, k: nat) -> bool {
    forall|i: nat| i < n ==> !has_token(text, #[trigger] cand(k, i))
}

/// The least free underscore count.
pub open spec fn fresh_k(text: Seq<char>, n: nat) -> nat {
    choose|k: nat| free_at(text, n, k) && forall|j: nat| j < k ==> !#[trigger] free_at(text, n, j)
}

/// The per-iteration copy names.
pub open spec fn ws_of(text: Seq<char>, n: nat) -> Seq<Seq<char>> {
    Seq::new(n, |i: int| cand(fresh_k(text, n), i as nat))
}

/// The rendered function: every token a fresh name must avoid.
pub open spec fn used_text(t: LTarget, ps: Seq<Seq<char>>, body: Seq<LStmt>) -> Seq<char> {
    header_text(t, ps) + block_text(body, 0)
}

// ---------------------------------------------------------------------
// The conversion
// ---------------------------------------------------------------------

/// `local w_i = p_i` for every parameter.
pub open spec fn copies(ws: Seq<Seq<char>>, ps: Seq<Seq<char>>) -> Seq<LStmt> {
    Seq::new(ps.len(), |i: int| LStmt::Local(seq![ws[i]], Some(LExpr::Name(ps[i]))))
}

/// The loop body: copies, the renamed body with its tail sites rewritten,
/// and — when the body can fall off — the exit guard and continue label.
pub open spec fn loop_inner(body: Seq<LStmt>, n: SName, ps: Seq<Seq<char>>, ws: Seq<Seq<char>>) -> Seq<LStmt> {
    let falls = !block_diverges(body);
    copies(ws, ps) + rw_tails(ren_block(body, ps, ws, Set::empty()), n, ps, falls)
        + if falls {
        seq![LStmt::Do(seq![LStmt::ReturnNone]), LStmt::Label("continue"@)]
    } else {
        Seq::empty()
    }
}

/// The converted body of the module-level definition at `k`, when every
/// gate holds.
pub open spec fn tail_convert(ss: Seq<LStmt>, k: int, t: LTarget, ps: Seq<Seq<char>>, body: Seq<LStmt>) -> Option<Seq<LStmt>> {
    match self_target(t, ps) {
        Some(n) => if qualifies(ss, k, n) && tail_has_site(body, n, ps) && !blk_stmts(body, ps)
            && (n is Slot || sr_body(body, n)) && count_locals(body) + 2 * ps.len() <= LOCAL_LIMIT {
            Some(seq![LStmt::WhileTrue(loop_inner(body, n, ps, ws_of(used_text(t, ps, body), ps.len())))])
        } else {
            None
        },
        None => None,
    }
}

// ---------------------------------------------------------------------
// Gates, computed
// ---------------------------------------------------------------------

pub open spec fn opt_sname(o: Option<SelfName>) -> Option<SName> {
    match o {
        Some(n) => Some(n@),
        None => None,
    }
}

/// Are the parameters plain identifiers without duplicates?
fn params_ok(params: &Vec<String>) -> (r: bool)
    ensures
        r == (all_ident(strs_model(params@)) && distinct(strs_model(params@))),
{
    let ghost m = strs_model(params@);
    let mut i: usize = 0;
    while i < params.len()
        invariant
            m == strs_model(params@),
            i <= params@.len(),
            forall|a: int| 0 <= a < i ==> is_ident_text(#[trigger] m[a]),
            forall|a: int, b: int| 0 <= a < b < i ==> m[a] != m[b],
        decreases params@.len() - i,
    {
        assert(m[i as int] == params@[i as int]@);
        if !is_plain_ident(params[i].as_str()) {
            return false;
        }
        let mut j: usize = 0;
        while j < i
            invariant
                m == strs_model(params@),
                j <= i < params@.len(),
                forall|a: int| 0 <= a < j ==> m[a] != m[i as int],
            decreases i - j,
        {
            assert(m[j as int] == params@[j as int]@);
            assert(m[i as int] == params@[i as int]@);
            if string_eq(&params[j], &params[i]) {
                return false;
            }
            j = j + 1;
        }
        i = i + 1;
    }
    true
}

fn slot_name(i: u32) -> (r: String)
    ensures
        r@ == slot_spelling(i),
{
    let mut s = crate::text::string_from("__mll_fn[");
    let d = crate::text::decimal_string(i as u64);
    crate::text::push_str(&mut s, d.as_str());
    crate::text::push_str(&mut s, "]");
    s
}

/// The self-name of a definition, or `None` when it must be skipped.
pub fn self_target_exec(target: &FnTarget, params: &Vec<String>) -> (r: Option<SelfName>)
    ensures
        opt_sname(r) == self_target(target@, strs_model(params@)),
{
    let n = match target {
        FnTarget::LocalFn(x) => if is_plain_ident(x.as_str()) {
            Some(SelfName::LocalFn(x.clone()))
        } else {
            None
        },
        FnTarget::Assigned(x) => if is_plain_ident(x.as_str()) {
            Some(SelfName::Assigned(x.clone()))
        } else {
            None
        },
        FnTarget::Slot(i) => Some(SelfName::Slot(slot_name(*i))),
        FnTarget::ThunkSlot(_) => None,
    };
    if params_ok(params) { n } else { None }
}

/// Is the module-level definition at `k` provably named `n`?
pub fn qualifies_exec(module: &Vec<Stmt>, k: usize, n: &SelfName) -> (r: bool)
    requires
        k <= module@.len(),
    ensures
        r == qualifies(stmts_model(module@), k as int, n@),
{
    match n {
        SelfName::LocalFn(f) => {
            let c = crate::census::census_stmts(module, f.as_str());
            c.binds == 1 && c.assigns == 0 && !c.raw
        },
        SelfName::Assigned(f) => {
            let c = crate::census::census_stmts(module, f.as_str());
            c.binds == 2 && c.assigns == 0 && !c.raw && declared_before_exec(module, k, f.as_str())
        },
        SelfName::Slot(sp) => {
            let c = crate::census::census_stmts(module, sp.as_str());
            let t = crate::census::census_stmts(module, "__mll_fn");
            c.stores == 1 && !t.raw
        },
    }
}

fn declared_before_exec(module: &Vec<Stmt>, k: usize, f: &str) -> (r: bool)
    requires
        k <= module@.len(),
    ensures
        r == declared_before(stmts_model(module@), k as int, f@),
{
    let ghost m = stmts_model(module@);
    let mut j: usize = 0;
    while j < k
        invariant
            m == stmts_model(module@),
            j <= k <= module@.len(),
            forall|a: int| 0 <= a < j ==> !#[trigger] local_declares(m[a], f@),
        decreases k - j,
    {
        assert(m[j as int] == module@[j as int]@);
        if let Stmt::Local(ns, _) = &module[j] {
            assert(local_declares(m[j as int], f@) == strs_model(ns@).contains(f@));
            let mut i: usize = 0;
            while i < ns.len()
                invariant
                    m == stmts_model(module@),
                    j < k <= module@.len(),
                    local_declares(m[j as int], f@) == strs_model(ns@).contains(f@),
                    i <= ns@.len(),
                    forall|a: int| 0 <= a < i ==> ns@[a]@ != f@,
                decreases ns@.len() - i,
            {
                if str_eq(ns[i].as_str(), f) {
                    assert(strs_model(ns@)[i as int] == f@);
                    assert(strs_model(ns@).contains(f@));
                    assert(local_declares(m[j as int], f@));
                    return true;
                }
                i = i + 1;
            }
            assert forall|a: int| 0 <= a < strs_model(ns@).len() implies strs_model(ns@)[a] != f@ by {
                assert(strs_model(ns@)[a] == ns@[a]@);
            }
            assert(!strs_model(ns@).contains(f@));
        }
        j = j + 1;
    }
    false
}

/// `e` with grouping parens peeled.
fn peel_exec(e: &Expr) -> (r: &Expr)
    ensures
        r@ == peel(e@),
    decreases e,
{
    match e {
        Expr::Paren(b) => peel_exec(b),
        _ => e,
    }
}

fn is_self_ref_exec(f: &Expr, n: &SelfName) -> (r: bool)
    ensures
        r == is_self_ref(f@, n@),
{
    match f {
        Expr::Name(s) => string_eq(s, n.spelling()),
        Expr::Index(b, suf) => match n {
            SelfName::Slot(sp) => {
                let base_ok = match &**b {
                    Expr::Name(bn) => {
                        assert((**b)@ == LExpr::Name(bn@));
                        str_eq(bn.as_str(), "__mll_fn")
                    },
                    _ => false,
                };
                let mut full = crate::text::string_from("__mll_fn");
                crate::text::push_str(&mut full, suf.as_str());
                base_ok && string_eq(&full, sp)
            },
            _ => false,
        },
        _ => false,
    }
}

pub open spec fn opt_args(o: Option<&Vec<Expr>>) -> Option<Seq<LExpr>> {
    match o {
        Some(a) => Some(exprs_model(a@)),
        None => None,
    }
}

/// The arguments of a rewritable self-call.
fn site_args_exec<'a>(e: &'a Expr, n: &SelfName, params: &Vec<String>) -> (r: Option<&'a Vec<Expr>>)
    ensures
        opt_args(r) == site_args(e@, n@, strs_model(params@)),
{
    let p = peel_exec(e);
    match p {
        Expr::Call(f, args) => {
            assert(p@ == LExpr::Call(Box::new((**f)@), exprs_model(args@)));
            if is_self_ref_exec(f, n) && !(params.len() == 0 && args.len() > 0) {
                Some(args)
            } else {
                None
            }
        },
        _ => None,
    }
}

fn tail_has_site_exec(ss: &Vec<Stmt>, n: &SelfName, params: &Vec<String>) -> (r: bool)
    ensures
        r == tail_has_site(stmts_model(ss@), n@, strs_model(params@)),
    decreases ss,
{
    if ss.len() == 0 {
        return false;
    }
    let last = &ss[ss.len() - 1];
    assert(decreases_to!(ss => ss@[ss@.len() - 1]));
    assert(stmts_model(ss@).last() == last@);
    match last {
        Stmt::If { cond: _, then_b, elseifs, else_b } => {
            tail_has_site_exec(&then_b.0, n, params) || arms_have_site_exec(elseifs, n, params) || match else_b {
                Some(b) => tail_has_site_exec(&b.0, n, params),
                None => false,
            }
        },
        Stmt::Do(b) => tail_has_site_exec(&b.0, n, params),
        Stmt::Return(e) => site_args_exec(e, n, params).is_some(),
        _ => false,
    }
}

fn arms_have_site_exec(arms: &Vec<(Expr, Block)>, n: &SelfName, params: &Vec<String>) -> (r: bool)
    ensures
        r == arms_have_site(arms_model(arms@), n@, strs_model(params@)),
    decreases arms,
{
    let mut i: usize = 0;
    while i < arms.len()
        invariant
            i <= arms@.len(),
            !arms_have_site(arms_model(arms@.take(i as int)), n@, strs_model(params@)),
        decreases arms@.len() - i,
    {
        assert(decreases_to!(arms => arms@[i as int]));
        assert(arms_model(arms@.take(i as int + 1)).drop_last() =~= arms_model(arms@.take(i as int)));
        if tail_has_site_exec(&arms[i].1.0, n, params) {
            proof { lemma_arms_site_extend(arms_model(arms@), i as int + 1, n@, strs_model(params@)); }
            assert(arms_model(arms@.take(i as int + 1)) =~= arms_model(arms@).take(i as int + 1));
            return true;
        }
        i = i + 1;
    }
    assert(arms@.take(arms@.len() as int) =~= arms@);
    false
}

/// A site in a prefix of the arms is a site of the arms.
proof fn lemma_arms_site_extend(arms: Seq<(LExpr, Seq<LStmt>)>, m: int, n: SName, ps: Seq<Seq<char>>)
    requires
        0 <= m <= arms.len(),
    ensures
        arms_have_site(arms.take(m), n, ps) ==> arms_have_site(arms, n, ps),
    decreases arms.len(),
{
    if m < arms.len() {
        lemma_arms_site_extend(arms.drop_last(), m, n, ps);
        assert(arms.drop_last().take(m) =~= arms.take(m));
    } else {
        assert(arms.take(m) =~= arms);
    }
}

// ---- single-return ----

fn sr_operand_exec(e: &Expr, n: &SelfName) -> (r: bool)
    ensures
        r == sr_operand(e@, n@),
{
    match e {
        Expr::Paren(_) => true,
        Expr::Call(f, _) => {
            let is_err = match &**f {
                Expr::Name(x) => {
                    assert((**f)@ == LExpr::Name(x@));
                    str_eq(x.as_str(), "error_")
                },
                _ => false,
            };
            crate::luaopt::single_return_callee_exec(f) || is_self_ref_exec(f, n) || is_err
        },
        Expr::Method(_, _, _) => false,
        Expr::Raw(_) => false,
        _ => true,
    }
}

fn sr_body_exec(ss: &Vec<Stmt>, n: &SelfName) -> (r: bool)
    ensures
        r == sr_body(stmts_model(ss@), n@),
    decreases ss,
{
    let mut i: usize = 0;
    while i < ss.len()
        invariant
            i <= ss@.len(),
            sr_body(stmts_model(ss@.take(i as int)), n@),
        decreases ss@.len() - i,
    {
        assert(decreases_to!(ss => ss@[i as int]));
        assert(stmts_model(ss@.take(i as int + 1)).drop_last() =~= stmts_model(ss@.take(i as int)));
        if !sr_stmt_exec(&ss[i], n) {
            proof { lemma_sr_prefix(stmts_model(ss@), i as int + 1, n@); }
            assert(stmts_model(ss@.take(i as int + 1)) =~= stmts_model(ss@).take(i as int + 1));
            return false;
        }
        i = i + 1;
    }
    assert(ss@.take(ss@.len() as int) =~= ss@);
    true
}

proof fn lemma_sr_prefix(ss: Seq<LStmt>, m: int, n: SName)
    requires
        0 <= m <= ss.len(),
    ensures
        sr_body(ss, n) ==> sr_body(ss.take(m), n),
    decreases ss.len(),
{
    if m < ss.len() {
        lemma_sr_prefix(ss.drop_last(), m, n);
        assert(ss.drop_last().take(m) =~= ss.take(m));
    } else {
        assert(ss.take(m) =~= ss);
    }
}

proof fn lemma_sr_arms_prefix(arms: Seq<(LExpr, Seq<LStmt>)>, m: int, n: SName)
    requires
        0 <= m <= arms.len(),
    ensures
        sr_arms(arms, n) ==> sr_arms(arms.take(m), n),
    decreases arms.len(),
{
    if m < arms.len() {
        lemma_sr_arms_prefix(arms.drop_last(), m, n);
        assert(arms.drop_last().take(m) =~= arms.take(m));
    } else {
        assert(arms.take(m) =~= arms);
    }
}

fn sr_stmt_exec(s: &Stmt, n: &SelfName) -> (r: bool)
    ensures
        r == sr_stmt(s@, n@),
    decreases s,
{
    match s {
        Stmt::Return(e) => sr_operand_exec(e, n),
        Stmt::ReturnNone => false,
        Stmt::Raw(t) => !str_has_token(t.as_str(), "return"),
        Stmt::If { cond: _, then_b, elseifs, else_b } => {
            sr_body_exec(&then_b.0, n) && sr_arms_exec(elseifs, n) && match else_b {
                Some(b) => sr_body_exec(&b.0, n),
                None => true,
            }
        },
        Stmt::Do(b) => sr_body_exec(&b.0, n),
        Stmt::WhileTrue(b) => sr_body_exec(&b.0, n),
        _ => true,
    }
}

fn sr_arms_exec(arms: &Vec<(Expr, Block)>, n: &SelfName) -> (r: bool)
    ensures
        r == sr_arms(arms_model(arms@), n@),
    decreases arms,
{
    let mut i: usize = 0;
    while i < arms.len()
        invariant
            i <= arms@.len(),
            sr_arms(arms_model(arms@.take(i as int)), n@),
        decreases arms@.len() - i,
    {
        assert(decreases_to!(arms => arms@[i as int]));
        assert(arms_model(arms@.take(i as int + 1)).drop_last() =~= arms_model(arms@.take(i as int)));
        if !sr_body_exec(&arms[i].1.0, n) {
            proof { lemma_sr_arms_prefix(arms_model(arms@), i as int + 1, n@); }
            assert(arms_model(arms@.take(i as int + 1)) =~= arms_model(arms@).take(i as int + 1));
            return false;
        }
        i = i + 1;
    }
    assert(arms@.take(arms@.len() as int) =~= arms@);
    true
}

// ---- rename blocking ----

/// Is `s` one of `ps`?
pub fn names_contain(ps: &Vec<String>, s: &str) -> (r: bool)
    ensures
        r == strs_model(ps@).contains(s@),
{
    let mut i: usize = 0;
    while i < ps.len()
        invariant
            i <= ps@.len(),
            forall|a: int| 0 <= a < i ==> strs_model(ps@)[a] != s@,
        decreases ps@.len() - i,
    {
        assert(strs_model(ps@)[i as int] == ps@[i as int]@);
        if str_eq(ps[i].as_str(), s) {
            return true;
        }
        i = i + 1;
    }
    false
}

fn lv_blocked_exec(l: &str, ps: &Vec<String>) -> (r: bool)
    ensures
        r == lv_blocked(l@, strs_model(ps@)),
{
    !names_contain(ps, l) && text_mentions(l, ps)
}

fn lvs_blocked_exec(ls: &Vec<String>, ps: &Vec<String>) -> (r: bool)
    ensures
        r == lvs_blocked(strs_model(ls@), strs_model(ps@)),
{
    let ghost m = strs_model(ls@);
    let mut i: usize = 0;
    while i < ls.len()
        invariant
            m == strs_model(ls@),
            i <= ls@.len(),
            forall|a: int| 0 <= a < i ==> !lv_blocked(#[trigger] m[a], strs_model(ps@)),
        decreases ls@.len() - i,
    {
        assert(m[i as int] == ls@[i as int]@);
        if lv_blocked_exec(ls[i].as_str(), ps) {
            return true;
        }
        i = i + 1;
    }
    false
}

fn header_blocked_exec(t: &FnTarget, hps: &Vec<String>, ps: &Vec<String>) -> (r: bool)
    ensures
        r == header_blocked(t@, strs_model(hps@), strs_model(ps@)),
{
    let hit = match t {
        FnTarget::LocalFn(x) => text_mentions(x.as_str(), ps),
        FnTarget::Assigned(x) => text_mentions(x.as_str(), ps),
        FnTarget::Slot(_) => names_contain(ps, "__mll_fn"),
        FnTarget::ThunkSlot(_) => names_contain(ps, "__mll_tkf"),
    };
    if hit {
        return true;
    }
    let ghost m = strs_model(hps@);
    let mut i: usize = 0;
    while i < hps.len()
        invariant
            m == strs_model(hps@),
            i <= hps@.len(),
            forall|a: int| 0 <= a < i ==> !strs_model(ps@).contains(#[trigger] m[a]),
        decreases hps@.len() - i,
    {
        assert(m[i as int] == hps@[i as int]@);
        if names_contain(ps, hps[i].as_str()) {
            return true;
        }
        i = i + 1;
    }
    false
}

fn blk_expr_exec(e: &Expr, ps: &Vec<String>) -> (r: bool)
    ensures
        r == blk_expr(e@, strs_model(ps@)),
    decreases e,
{
    match e {
        Expr::Name(s) => !names_contain(ps, s.as_str()) && !is_plain_ident(s.as_str()) && text_mentions(s.as_str(), ps),
        Expr::Raw(t) => text_mentions(t.as_str(), ps),
        Expr::Lit(_) => false,
        Expr::Func(_, body) => match body {
            FuncBody::Inline(ss) => {
                assert(body@ == LBody::Inline(stmts_model(ss@)));
                blk_stmts_exec(ss, ps)
            },
            FuncBody::Block(Block(ss)) => {
                assert(body@ == LBody::Block(stmts_model(ss@)));
                blk_stmts_exec(ss, ps)
            },
        },
        Expr::Paren(b) => blk_expr_exec(b, ps),
        Expr::Neg(b) => blk_expr_exec(b, ps),
        Expr::Index(b, _) => blk_expr_exec(b, ps),
        Expr::Call(f, args) => blk_expr_exec(f, ps) || blk_exprs_exec(args, ps),
        Expr::Method(r, _, args) => blk_expr_exec(r, ps) || blk_exprs_exec(args, ps),
        Expr::Binop(_, l, r) => blk_expr_exec(l, ps) || blk_expr_exec(r, ps),
        Expr::Table(items) => blk_items_exec(items, ps),
        Expr::TableSpaced(items) => blk_items_exec(items, ps),
    }
}

fn blk_exprs_exec(es: &Vec<Expr>, ps: &Vec<String>) -> (r: bool)
    ensures
        r == blk_exprs(exprs_model(es@), strs_model(ps@)),
    decreases es,
{
    let mut acc = false;
    let mut i: usize = 0;
    while i < es.len()
        invariant
            i <= es@.len(),
            acc == blk_exprs(exprs_model(es@.take(i as int)), strs_model(ps@)),
        decreases es@.len() - i,
    {
        assert(decreases_to!(es => es@[i as int]));
        assert(exprs_model(es@.take(i as int + 1)).drop_last() =~= exprs_model(es@.take(i as int)));
        if !acc {
            acc = blk_expr_exec(&es[i], ps);
        }
        i = i + 1;
    }
    assert(es@.take(es@.len() as int) =~= es@);
    acc
}

fn blk_items_exec(its: &Vec<Item>, ps: &Vec<String>) -> (r: bool)
    ensures
        r == blk_items(items_model(its@), strs_model(ps@)),
    decreases its,
{
    let mut acc = false;
    let mut i: usize = 0;
    while i < its.len()
        invariant
            i <= its@.len(),
            acc == blk_items(items_model(its@.take(i as int)), strs_model(ps@)),
        decreases its@.len() - i,
    {
        assert(decreases_to!(its => its@[i as int]));
        assert(items_model(its@.take(i as int + 1)).drop_last() =~= items_model(its@.take(i as int)));
        if !acc {
            acc = match &its[i] {
                Item::Pos(e) => blk_expr_exec(e, ps),
                Item::KV(_, e) => blk_expr_exec(e, ps),
            };
        }
        i = i + 1;
    }
    assert(its@.take(its@.len() as int) =~= its@);
    acc
}

fn blk_stmt_exec(s: &Stmt, ps: &Vec<String>) -> (r: bool)
    ensures
        r == blk_stmt(s@, strs_model(ps@)),
    decreases s,
{
    match s {
        Stmt::Raw(t) => text_mentions(t.as_str(), ps),
        Stmt::Local(_, init) => match init {
            Some(e) => blk_expr_exec(e, ps),
            None => false,
        },
        Stmt::Assign(l, e) => lv_blocked_exec(l.as_str(), ps) || blk_expr_exec(e, ps),
        Stmt::AssignIf { lhs, cond, then_e, else_e } => lv_blocked_exec(lhs.as_str(), ps) || blk_expr_exec(cond, ps)
            || blk_expr_exec(then_e, ps) || blk_expr_exec(else_e, ps),
        Stmt::MultiAssign(ls, es) => lvs_blocked_exec(ls, ps) || blk_exprs_exec(es, ps),
        Stmt::Function { target, params, body } => header_blocked_exec(target, params, ps) || blk_stmts_exec(&body.0, ps),
        Stmt::Return(e) => blk_expr_exec(e, ps),
        Stmt::Expr(e) => blk_expr_exec(e, ps),
        Stmt::If { cond, then_b, elseifs, else_b } => blk_expr_exec(cond, ps) || blk_stmts_exec(&then_b.0, ps)
            || blk_arms_exec(elseifs, ps) || match else_b {
            Some(b) => blk_stmts_exec(&b.0, ps),
            None => false,
        },
        Stmt::Do(b) => blk_stmts_exec(&b.0, ps),
        Stmt::WhileTrue(b) => blk_stmts_exec(&b.0, ps),
        Stmt::ReturnTable(es) => blk_entries_exec(es, ps),
        _ => false,
    }
}

/// Does the body hold a parameter mention the rename cannot handle?
pub fn blk_stmts_exec(ss: &Vec<Stmt>, ps: &Vec<String>) -> (r: bool)
    ensures
        r == blk_stmts(stmts_model(ss@), strs_model(ps@)),
    decreases ss,
{
    let mut acc = false;
    let mut i: usize = 0;
    while i < ss.len()
        invariant
            i <= ss@.len(),
            acc == blk_stmts(stmts_model(ss@.take(i as int)), strs_model(ps@)),
        decreases ss@.len() - i,
    {
        assert(decreases_to!(ss => ss@[i as int]));
        assert(stmts_model(ss@.take(i as int + 1)).drop_last() =~= stmts_model(ss@.take(i as int)));
        if !acc {
            acc = blk_stmt_exec(&ss[i], ps);
        }
        i = i + 1;
    }
    assert(ss@.take(ss@.len() as int) =~= ss@);
    acc
}

fn blk_arms_exec(arms: &Vec<(Expr, Block)>, ps: &Vec<String>) -> (r: bool)
    ensures
        r == blk_arms(arms_model(arms@), strs_model(ps@)),
    decreases arms,
{
    let mut acc = false;
    let mut i: usize = 0;
    while i < arms.len()
        invariant
            i <= arms@.len(),
            acc == blk_arms(arms_model(arms@.take(i as int)), strs_model(ps@)),
        decreases arms@.len() - i,
    {
        assert(decreases_to!(arms => arms@[i as int]));
        assert(arms_model(arms@.take(i as int + 1)).drop_last() =~= arms_model(arms@.take(i as int)));
        if !acc {
            acc = blk_expr_exec(&arms[i].0, ps) || blk_stmts_exec(&arms[i].1.0, ps);
        }
        i = i + 1;
    }
    assert(arms@.take(arms@.len() as int) =~= arms@);
    acc
}

fn blk_entries_exec(es: &Vec<(String, Expr)>, ps: &Vec<String>) -> (r: bool)
    ensures
        r == blk_entries(entries_model(es@), strs_model(ps@)),
    decreases es,
{
    let mut acc = false;
    let mut i: usize = 0;
    while i < es.len()
        invariant
            i <= es@.len(),
            acc == blk_entries(entries_model(es@.take(i as int)), strs_model(ps@)),
        decreases es@.len() - i,
    {
        assert(decreases_to!(es => es@[i as int]));
        assert(entries_model(es@.take(i as int + 1)).drop_last() =~= entries_model(es@.take(i as int)));
        if !acc {
            acc = blk_expr_exec(&es[i].1, ps);
        }
        i = i + 1;
    }
    assert(es@.take(es@.len() as int) =~= es@);
    acc
}

// ---- the scoped rename ----

proof fn lemma_pos_of(ps: Seq<Seq<char>>, s: Seq<char>, i: int)
    requires
        0 <= i < ps.len(),
        ps[i] == s,
        forall|j: int| 0 <= j < i ==> ps[j] != s,
    ensures
        pos_of(ps, s) == i,
    decreases i,
{
    if i > 0 {
        lemma_pos_of(ps.drop_first(), s, i - 1);
    }
}

/// A copy of a list of names.
pub fn copy_strings(v: &Vec<String>) -> (r: Vec<String>)
    ensures
        r@.len() == v@.len(),
        forall|i: int| 0 <= i < v@.len() ==> #[trigger] r@[i]@ == v@[i]@,
        strs_model(r@) == strs_model(v@),
{
    let mut out: Vec<String> = Vec::new();
    let mut i: usize = 0;
    while i < v.len()
        invariant
            i <= v@.len(),
            out@.len() == i,
            forall|j: int| 0 <= j < i ==> #[trigger] out@[j]@ == v@[j]@,
        decreases v@.len() - i,
    {
        out.push(v[i].clone());
        i = i + 1;
    }
    assert(strs_model(out@) =~= strs_model(v@));
    out
}

fn ren_name_exec(s: &String, ps: &Vec<String>, ws: &Vec<String>, sh: &NameSet) -> (r: String)
    requires
        ws@.len() == ps@.len(),
    ensures
        r@ == ren_name(s@, strs_model(ps@), strs_model(ws@), sh@),
{
    if sh.contains(s.as_str()) {
        return s.clone();
    }
    let ghost pm = strs_model(ps@);
    let mut i: usize = 0;
    while i < ps.len()
        invariant
            pm == strs_model(ps@),
            ws@.len() == ps@.len(),
            i <= ps@.len(),
            !sh@.contains(s@),
            forall|j: int| 0 <= j < i ==> pm[j] != s@,
        decreases ps@.len() - i,
    {
        assert(pm[i as int] == ps@[i as int]@);
        if string_eq(&ps[i], s) {
            proof {
                lemma_pos_of(pm, s@, i as int);
                assert(pm.contains(s@));
                assert(strs_model(ws@)[i as int] == ws@[i as int]@);
            }
            let r = ws[i].clone();
            assert(r@ == ws@[i as int]@);
            assert(!sh@.contains(s@));
            assert(ren_name(s@, pm, strs_model(ws@), sh@) == strs_model(ws@)[pos_of(pm, s@) as int]);
            return r;
        }
        i = i + 1;
    }
    assert(!pm.contains(s@));
    s.clone()
}

fn ren_names_exec(ls: &Vec<String>, ps: &Vec<String>, ws: &Vec<String>, sh: &NameSet) -> (r: Vec<String>)
    requires
        ws@.len() == ps@.len(),
    ensures
        strs_model(r@) == ren_names(strs_model(ls@), strs_model(ps@), strs_model(ws@), sh@),
{
    let mut out: Vec<String> = Vec::new();
    let mut i: usize = 0;
    while i < ls.len()
        invariant
            ws@.len() == ps@.len(),
            i <= ls@.len(),
            out@.len() == i,
            forall|j: int| 0 <= j < i ==> #[trigger] out@[j]@ == ren_name(ls@[j]@, strs_model(ps@), strs_model(ws@), sh@),
        decreases ls@.len() - i,
    {
        out.push(ren_name_exec(&ls[i], ps, ws, sh));
        i = i + 1;
    }
    assert(strs_model(out@) =~= ren_names(strs_model(ls@), strs_model(ps@), strs_model(ws@), sh@));
    out
}

/// `sh` plus every name of `ns`.
fn shadow_with(sh: &NameSet, ns: &Vec<String>) -> (r: NameSet)
    ensures
        r@ == sh@ + strs_model(ns@).to_set(),
{
    let mut r = NameSet::new();
    r.union_with(sh);
    let mut i: usize = 0;
    while i < ns.len()
        invariant
            i <= ns@.len(),
            r@ == sh@ + strs_model(ns@.take(i as int)).to_set(),
        decreases ns@.len() - i,
    {
        r.insert(ns[i].as_str());
        proof {
            let a = strs_model(ns@.take(i as int));
            let b = strs_model(ns@.take(i as int + 1));
            assert(b =~= a.push(ns@[i as int]@));
            assert(b.to_set() =~= a.to_set().insert(ns@[i as int]@)) by {
                assert forall|x: Seq<char>| b.to_set().contains(x) == a.to_set().insert(ns@[i as int]@).contains(x) by {
                    if b.contains(x) {
                        let k = choose|k: int| 0 <= k < b.len() && b[k] == x;
                        if k < a.len() {
                            assert(a[k] == x);
                        }
                    }
                    if a.contains(x) {
                        let k = choose|k: int| 0 <= k < a.len() && a[k] == x;
                        assert(b[k] == x);
                    }
                    if x == ns@[i as int]@ {
                        assert(b[i as int] == x);
                    }
                }
            }
            assert(r@ =~= sh@ + b.to_set());
        }
        i = i + 1;
    }
    assert(ns@.take(ns@.len() as int) =~= ns@);
    r
}

fn ren_expr_exec(e: &Expr, ps: &Vec<String>, ws: &Vec<String>, sh: &NameSet) -> (r: Expr)
    requires
        ws@.len() == ps@.len(),
    ensures
        r@ == ren_expr(e@, strs_model(ps@), strs_model(ws@), sh@),
    decreases e,
{
    match e {
        Expr::Name(s) => Expr::Name(ren_name_exec(s, ps, ws, sh)),
        Expr::Lit(s) => Expr::Lit(s.clone()),
        Expr::Raw(s) => Expr::Raw(s.clone()),
        Expr::Paren(b) => Expr::Paren(Box::new(ren_expr_exec(b, ps, ws, sh))),
        Expr::Neg(b) => Expr::Neg(Box::new(ren_expr_exec(b, ps, ws, sh))),
        Expr::Index(b, suf) => Expr::Index(Box::new(ren_expr_exec(b, ps, ws, sh)), suf.clone()),
        Expr::Call(f, args) => Expr::Call(Box::new(ren_expr_exec(f, ps, ws, sh)), ren_exprs_exec(args, ps, ws, sh)),
        Expr::Method(r, m, args) => Expr::Method(Box::new(ren_expr_exec(r, ps, ws, sh)), m.clone(),
            ren_exprs_exec(args, ps, ws, sh)),
        Expr::Binop(op, l, r) => Expr::Binop(op.clone(), Box::new(ren_expr_exec(l, ps, ws, sh)),
            Box::new(ren_expr_exec(r, ps, ws, sh))),
        Expr::Table(items) => Expr::Table(ren_items_exec(items, ps, ws, sh)),
        Expr::TableSpaced(items) => Expr::TableSpaced(ren_items_exec(items, ps, ws, sh)),
        Expr::Func(fps, body) => {
            let inner = shadow_with(sh, fps);
            let nb = match body {
                FuncBody::Inline(ss) => {
                    assert(body@ == LBody::Inline(stmts_model(ss@)));
                    let v = ren_block_exec(ss, ps, ws, &inner);
                    let nb = FuncBody::Inline(v);
                    assert(nb@ == LBody::Inline(stmts_model(v@)));
                    nb
                },
                FuncBody::Block(Block(ss)) => {
                    assert(body@ == LBody::Block(stmts_model(ss@)));
                    let v = ren_block_exec(ss, ps, ws, &inner);
                    let nb = FuncBody::Block(Block(v));
                    assert(nb@ == LBody::Block(stmts_model(v@)));
                    nb
                },
            };
            Expr::Func(copy_strings(fps), nb)
        },
    }
}

fn ren_exprs_exec(es: &Vec<Expr>, ps: &Vec<String>, ws: &Vec<String>, sh: &NameSet) -> (r: Vec<Expr>)
    requires
        ws@.len() == ps@.len(),
    ensures
        exprs_model(r@) == ren_exprs(exprs_model(es@), strs_model(ps@), strs_model(ws@), sh@),
    decreases es,
{
    let mut out: Vec<Expr> = Vec::new();
    let mut i: usize = 0;
    while i < es.len()
        invariant
            ws@.len() == ps@.len(),
            i <= es@.len(),
            out@.len() == i,
            forall|j: int| 0 <= j < i ==> #[trigger] out@[j]@ == ren_expr(es@[j]@, strs_model(ps@), strs_model(ws@), sh@),
        decreases es@.len() - i,
    {
        assert(decreases_to!(es => es@[i as int]));
        out.push(ren_expr_exec(&es[i], ps, ws, sh));
        i = i + 1;
    }
    proof {
        let a = exprs_model(out@);
        let b = ren_exprs(exprs_model(es@), strs_model(ps@), strs_model(ws@), sh@);
        assert forall|j: int| 0 <= j < a.len() implies a[j] == b[j] by {
            assert(a[j] == out@[j]@);
            assert(exprs_model(es@)[j] == es@[j]@);
        }
        assert(a =~= b);
    }
    out
}

fn ren_items_exec(its: &Vec<Item>, ps: &Vec<String>, ws: &Vec<String>, sh: &NameSet) -> (r: Vec<Item>)
    requires
        ws@.len() == ps@.len(),
    ensures
        items_model(r@) == ren_items(items_model(its@), strs_model(ps@), strs_model(ws@), sh@),
    decreases its,
{
    let mut out: Vec<Item> = Vec::new();
    let mut i: usize = 0;
    while i < its.len()
        invariant
            ws@.len() == ps@.len(),
            i <= its@.len(),
            out@.len() == i,
            forall|j: int| 0 <= j < i ==> #[trigger] out@[j]@ == ren_items(items_model(its@), strs_model(ps@), strs_model(ws@), sh@)[j],
            forall|j: int| 0 <= j < its@.len() ==> #[trigger] items_model(its@)[j] == its@[j]@,
        decreases its@.len() - i,
    {
        assert(decreases_to!(its => its@[i as int]));
        let it = match &its[i] {
            Item::Pos(e) => {
                assert(its@[i as int]@ == LItem::Pos(e@));
                Item::Pos(ren_expr_exec(e, ps, ws, sh))
            },
            Item::KV(k, e) => {
                assert(its@[i as int]@ == LItem::KV(k@, e@));
                Item::KV(k.clone(), ren_expr_exec(e, ps, ws, sh))
            },
        };
        out.push(it);
        i = i + 1;
    }
    proof {
        let a = items_model(out@);
        let b = ren_items(items_model(its@), strs_model(ps@), strs_model(ws@), sh@);
        assert forall|j: int| 0 <= j < a.len() implies a[j] == b[j] by {
            assert(a[j] == out@[j]@);
        }
        assert(a =~= b);
    }
    out
}

pub fn ren_block_exec(ss: &Vec<Stmt>, ps: &Vec<String>, ws: &Vec<String>, sh: &NameSet) -> (r: Vec<Stmt>)
    requires
        ws@.len() == ps@.len(),
    ensures
        stmts_model(r@) == ren_block(stmts_model(ss@), strs_model(ps@), strs_model(ws@), sh@),
    decreases ss,
{
    let ghost m = stmts_model(ss@);
    let ghost pm = strs_model(ps@);
    let ghost wm = strs_model(ws@);
    let mut cur = NameSet::new();
    cur.union_with(sh);
    assert(cur@ =~= sh@);
    let mut out: Vec<Stmt> = Vec::new();
    let mut i: usize = 0;
    assert(m.skip(0) =~= m);
    while i < ss.len()
        invariant
            ws@.len() == ps@.len(),
            m == stmts_model(ss@),
            pm == strs_model(ps@),
            wm == strs_model(ws@),
            i <= ss@.len(),
            stmts_model(out@) + ren_block(m.skip(i as int), pm, wm, cur@) == ren_block(m, pm, wm, sh@),
        decreases ss@.len() - i,
    {
        assert(decreases_to!(ss => ss@[i as int]));
        let ghost before = cur@;
        let st = ren_stmt_exec(&ss[i], ps, ws, &cur);
        proof {
            assert(m.skip(i as int)[0] == m[i as int]);
            assert(m.skip(i as int).drop_first() =~= m.skip(i as int + 1));
            assert(m[i as int] == ss@[i as int]@);
        }
        let ghost old_out = out@;
        out.push(st);
        if let Stmt::Local(ns, _) = &ss[i] {
            cur = shadow_with(&cur, ns);
        }
        proof {
            assert(cur@ == next_shadow(m[i as int], before));
            assert(stmts_model(out@) =~= stmts_model(old_out).push(ren_stmt(m[i as int], pm, wm, before)));
            assert(stmts_model(out@) + ren_block(m.skip(i as int + 1), pm, wm, cur@)
                =~= stmts_model(old_out) + ren_block(m.skip(i as int), pm, wm, before));
        }
        i = i + 1;
    }
    assert(m.skip(i as int) =~= Seq::<LStmt>::empty());
    assert(stmts_model(out@) =~= stmts_model(out@) + ren_block(m.skip(i as int), pm, wm, cur@));
    out
}

fn ren_stmt_exec(s: &Stmt, ps: &Vec<String>, ws: &Vec<String>, sh: &NameSet) -> (r: Stmt)
    requires
        ws@.len() == ps@.len(),
    ensures
        r@ == ren_stmt(s@, strs_model(ps@), strs_model(ws@), sh@),
    decreases s,
{
    match s {
        Stmt::Raw(t) => Stmt::Raw(t.clone()),
        Stmt::Local(ns, init) => {
            let ni = match init {
                Some(e) => Some(ren_expr_exec(e, ps, ws, sh)),
                None => None,
            };
            Stmt::Local(copy_strings(ns), ni)
        },
        Stmt::Assign(l, e) => Stmt::Assign(ren_name_exec(l, ps, ws, sh), ren_expr_exec(e, ps, ws, sh)),
        Stmt::Return(e) => Stmt::Return(ren_expr_exec(e, ps, ws, sh)),
        Stmt::Expr(e) => Stmt::Expr(ren_expr_exec(e, ps, ws, sh)),
        Stmt::If { cond, then_b, elseifs, else_b } => {
            let eb = match else_b {
                Some(b) => Some(Block(ren_block_exec(&b.0, ps, ws, sh))),
                None => None,
            };
            Stmt::If {
                cond: ren_expr_exec(cond, ps, ws, sh),
                then_b: Block(ren_block_exec(&then_b.0, ps, ws, sh)),
                elseifs: ren_arms_exec(elseifs, ps, ws, sh),
                else_b: eb,
            }
        },
        Stmt::AssignIf { lhs, cond, then_e, else_e } => Stmt::AssignIf {
            lhs: ren_name_exec(lhs, ps, ws, sh),
            cond: ren_expr_exec(cond, ps, ws, sh),
            then_e: ren_expr_exec(then_e, ps, ws, sh),
            else_e: ren_expr_exec(else_e, ps, ws, sh),
        },
        Stmt::Do(b) => Stmt::Do(Block(ren_block_exec(&b.0, ps, ws, sh))),
        Stmt::WhileTrue(b) => Stmt::WhileTrue(Block(ren_block_exec(&b.0, ps, ws, sh))),
        Stmt::MultiAssign(ls, es) => Stmt::MultiAssign(ren_names_exec(ls, ps, ws, sh), ren_exprs_exec(es, ps, ws, sh)),
        Stmt::ReturnNone => Stmt::ReturnNone,
        Stmt::Goto(l) => Stmt::Goto(l.clone()),
        Stmt::Label(l) => Stmt::Label(l.clone()),
        Stmt::Function { target, params, body } => Stmt::Function {
            target: copy_target(target),
            params: copy_strings(params),
            body: Block(ren_block_exec(&body.0, ps, ws, sh)),
        },
        Stmt::ReturnTable(es) => Stmt::ReturnTable(ren_entries_exec(es, ps, ws, sh)),
    }
}

pub fn copy_target(t: &FnTarget) -> (r: FnTarget)
    ensures
        r@ == t@,
{
    match t {
        FnTarget::LocalFn(n) => FnTarget::LocalFn(n.clone()),
        FnTarget::Slot(i) => FnTarget::Slot(*i),
        FnTarget::Assigned(n) => FnTarget::Assigned(n.clone()),
        FnTarget::ThunkSlot(i) => FnTarget::ThunkSlot(*i),
    }
}

fn ren_arms_exec(arms: &Vec<(Expr, Block)>, ps: &Vec<String>, ws: &Vec<String>, sh: &NameSet) -> (r: Vec<(Expr, Block)>)
    requires
        ws@.len() == ps@.len(),
    ensures
        arms_model(r@) == ren_arms(arms_model(arms@), strs_model(ps@), strs_model(ws@), sh@),
    decreases arms,
{
    let mut out: Vec<(Expr, Block)> = Vec::new();
    let mut i: usize = 0;
    while i < arms.len()
        invariant
            ws@.len() == ps@.len(),
            i <= arms@.len(),
            out@.len() == i,
            forall|j: int| 0 <= j < i ==> #[trigger] arms_model(out@)[j] == ren_arms(arms_model(arms@), strs_model(ps@), strs_model(ws@), sh@)[j],
        decreases arms@.len() - i,
    {
        assert(decreases_to!(arms => arms@[i as int]));
        let c = ren_expr_exec(&arms[i].0, ps, ws, sh);
        let b = ren_block_exec(&arms[i].1.0, ps, ws, sh);
        let ghost old_out = out@;
        out.push((c, Block(b)));
        proof {
            assert forall|j: int| 0 <= j < i + 1 implies #[trigger] arms_model(out@)[j] == ren_arms(arms_model(arms@), strs_model(ps@), strs_model(ws@), sh@)[j] by {
                if j < i {
                    assert(arms_model(out@)[j] == arms_model(old_out)[j]);
                }
            }
        }
        i = i + 1;
    }
    assert(arms_model(out@) =~= ren_arms(arms_model(arms@), strs_model(ps@), strs_model(ws@), sh@));
    out
}

fn ren_entries_exec(es: &Vec<(String, Expr)>, ps: &Vec<String>, ws: &Vec<String>, sh: &NameSet) -> (r: Vec<(String, Expr)>)
    requires
        ws@.len() == ps@.len(),
    ensures
        entries_model(r@) == ren_entries(entries_model(es@), strs_model(ps@), strs_model(ws@), sh@),
    decreases es,
{
    let mut out: Vec<(String, Expr)> = Vec::new();
    let mut i: usize = 0;
    while i < es.len()
        invariant
            ws@.len() == ps@.len(),
            i <= es@.len(),
            out@.len() == i,
            forall|j: int| 0 <= j < i ==> #[trigger] entries_model(out@)[j] == ren_entries(entries_model(es@), strs_model(ps@), strs_model(ws@), sh@)[j],
        decreases es@.len() - i,
    {
        assert(decreases_to!(es => es@[i as int]));
        let v = ren_expr_exec(&es[i].1, ps, ws, sh);
        let ghost old_out = out@;
        out.push((es[i].0.clone(), v));
        proof {
            assert forall|j: int| 0 <= j < i + 1 implies #[trigger] entries_model(out@)[j] == ren_entries(entries_model(es@), strs_model(ps@), strs_model(ws@), sh@)[j] by {
                if j < i {
                    assert(entries_model(out@)[j] == entries_model(old_out)[j]);
                }
            }
        }
        i = i + 1;
    }
    assert(entries_model(out@) =~= ren_entries(entries_model(es@), strs_model(ps@), strs_model(ws@), sh@));
    out
}

// ---- the tail rewrite ----

/// The argument list of a rewritable site, taken out of the return operand.
fn take_site_args(e: Expr, n: &SelfName, params: &Vec<String>) -> (r: Vec<Expr>)
    requires
        site_args(e@, n@, strs_model(params@)) is Some,
    ensures
        site_args(e@, n@, strs_model(params@)) == Some(exprs_model(r@)),
    decreases e,
{
    match e {
        Expr::Paren(b) => take_site_args(*b, n, params),
        Expr::Call(f, args) => {
            assert(e@ == LExpr::Call(Box::new((*f)@), exprs_model(args@)));
            args
        },
        _ => {
            assert(false);
            Vec::new()
        },
    }
}

fn rw_tails_exec(mut ss: Vec<Stmt>, n: &SelfName, params: &Vec<String>, goto: bool) -> (r: Vec<Stmt>)
    ensures
        stmts_model(r@) == rw_tails(stmts_model(ss@), n@, strs_model(params@), goto),
    decreases ss,
{
    let len = ss.len();
    if len == 0 {
        return ss;
    }
    let ghost m = stmts_model(ss@);
    assert(decreases_to!(ss => ss@[len - 1]));
    let ghost s0 = ss@;
    let last = ss.pop().unwrap();
    proof {
        assert(last == s0[len - 1]);
        assert(stmts_model(ss@) =~= m.drop_last());
        assert(m.last() == last@);
    }
    match last {
        Stmt::If { cond, then_b, elseifs, else_b } => {
            let nt = rw_tails_exec(then_b.0, n, params, goto);
            let na = rw_arms_exec(elseifs, n, params, goto);
            let ne = match else_b {
                Some(b) => Some(Block(rw_tails_exec(b.0, n, params, goto))),
                None => None,
            };
            let ghost before = ss@;
            ss.push(Stmt::If { cond, then_b: Block(nt), elseifs: na, else_b: ne });
            assert(stmts_model(ss@) =~= stmts_model(before).push(stmts_model(ss@).last()));
            ss
        },
        Stmt::Do(b) => {
            let nb = rw_tails_exec(b.0, n, params, goto);
            let ghost before = ss@;
            ss.push(Stmt::Do(Block(nb)));
            assert(stmts_model(ss@) =~= stmts_model(before).push(stmts_model(ss@).last()));
            ss
        },
        Stmt::Return(e) => {
            if site_args_exec(&e, n, params).is_some() {
                let args = take_site_args(e, n, params);
                let ghost before = stmts_model(ss@);
                let ghost upd = site_update(strs_model(params@), exprs_model(args@), goto);
                if params.len() > 0 {
                    ss.push(Stmt::MultiAssign(copy_strings(params), args));
                }
                if goto {
                    ss.push(Stmt::Goto(crate::text::string_from("continue")));
                }
                assert(stmts_model(ss@) =~= before + upd);
                ss
            } else {
                let ghost before = ss@;
                ss.push(Stmt::Return(e));
                assert(stmts_model(ss@) =~= stmts_model(before).push(stmts_model(ss@).last()));
                ss
            }
        },
        other => {
            let ghost before = ss@;
            ss.push(other);
            assert(stmts_model(ss@) =~= stmts_model(before).push(stmts_model(ss@).last()));
            ss
        },
    }
}

fn rw_arms_exec(arms: Vec<(Expr, Block)>, n: &SelfName, params: &Vec<String>, goto: bool) -> (r: Vec<(Expr, Block)>)
    ensures
        arms_model(r@) == rw_arms(arms_model(arms@), n@, strs_model(params@), goto),
    decreases arms,
{
    let ghost a0 = arms@;
    let ghost am = arms_model(arms@);
    let len = arms.len();
    let mut rest = arms;
    let mut out: Vec<(Expr, Block)> = Vec::new();
    let mut i: usize = 0;
    while rest.len() > 0
        invariant
            len == a0.len(),
            arms@ == a0,
            am == arms_model(a0),
            i <= len,
            rest@ == a0.skip(i as int),
            out@.len() == i,
            forall|j: int| 0 <= j < i ==> #[trigger] arms_model(out@)[j] == rw_arms(am, n@, strs_model(params@), goto)[j],
        decreases rest@.len(),
    {
        assert(a0.skip(i as int).len() > 0);
        let (c, b) = rest.remove(0);
        assert(a0[i as int] == (c, b));
        assert(decreases_to!(arms => arms@[i as int]));
        let nb = rw_tails_exec(b.0, n, params, goto);
        let ghost old_out = out@;
        out.push((c, Block(nb)));
        proof {
            assert forall|j: int| 0 <= j < i + 1 implies #[trigger] arms_model(out@)[j] == rw_arms(am, n@, strs_model(params@), goto)[j] by {
                if j < i {
                    assert(arms_model(out@)[j] == arms_model(old_out)[j]);
                }
            }
        }
        assert(rest@ =~= a0.skip(i as int + 1));
        i = i + 1;
    }
    assert(arms_model(out@) =~= rw_arms(am, n@, strs_model(params@), goto));
    out
}

// ---- fresh names ----

pub proof fn lemma_repeat_len(s: Seq<char>, k: nat)
    ensures
        repeat(s, k).len() == k * s.len(),
    decreases k,
{
    if k > 0 {
        let k1: nat = (k - 1) as nat;
        lemma_repeat_len(s, k1);
        assert(repeat(s, k).len() == repeat(s, k1).len() + s.len());
        let l: nat = s.len();
        assert(k1 * l + l == k * l) by (nonlinear_arith)
            requires
                k1 + 1 == k,
        ;
    } else {
        let l: nat = s.len();
        assert(k * l == 0) by (nonlinear_arith)
            requires
                k == 0,
        ;
    }
}

proof fn lemma_decimal_nonempty(i: nat)
    ensures
        decimal(i).len() >= 1,
    decreases i,
{
    if i >= 10 {
        lemma_decimal_nonempty(i / 10);
    }
}

proof fn lemma_decimal_injective(i: nat, j: nat)
    requires
        decimal(i) == decimal(j),
    ensures
        i == j,
    decreases i,
{
    lemma_decimal_nonempty(i / 10);
    lemma_decimal_nonempty(j / 10);
    if i < 10 && j < 10 {
        assert(decimal(i)[0] == digit_char(i));
        assert(decimal(j)[0] == digit_char(j));
    } else if i < 10 {
        assert(decimal(j).len() == decimal(j / 10).len() + 1);
        assert(decimal(i).len() == 1);
    } else if j < 10 {
        assert(decimal(i).len() == decimal(i / 10).len() + 1);
        assert(decimal(j).len() == 1);
    } else {
        let a = decimal(i);
        let b = decimal(j);
        assert(a.last() == digit_char(i % 10));
        assert(b.last() == digit_char(j % 10));
        assert(i % 10 == j % 10);
        assert(a.drop_last() =~= decimal(i / 10));
        assert(b.drop_last() =~= decimal(j / 10));
        lemma_decimal_injective(i / 10, j / 10);
        assert(i == 10 * (i / 10) + i % 10);
        assert(j == 10 * (j / 10) + j % 10);
    }
}

/// Distinct indices give distinct candidate names.
pub proof fn lemma_ws_distinct(text: Seq<char>, n: nat)
    ensures
        distinct(ws_of(text, n)),
{
    let k = fresh_k(text, n);
    let ws = ws_of(text, n);
    lemma_repeat_len("_"@, k);
    reveal_strlit("_w");
    reveal_strlit("_");
    assert forall|i: int, j: int| 0 <= i < j < ws.len() implies ws[i] != ws[j] by {
        let pre = "_w"@ + repeat("_"@, k);
        assert(ws[i] == pre + decimal(i as nat));
        assert(ws[j] == pre + decimal(j as nat));
        if ws[i] == ws[j] {
            assert((pre + decimal(i as nat)).subrange(pre.len() as int, ws[i].len() as int) =~= decimal(i as nat));
            assert((pre + decimal(j as nat)).subrange(pre.len() as int, ws[j].len() as int) =~= decimal(j as nat));
            lemma_decimal_injective(i as nat, j as nat);
        }
    }
}

proof fn lemma_least_free(text: Seq<char>, n: nat, k0: nat)
    requires
        free_at(text, n, k0),
    ensures
        exists|k: nat| free_at(text, n, k) && forall|j: nat| j < k ==> !#[trigger] free_at(text, n, j),
    decreases k0,
{
    if exists|j: nat| j < k0 && #[trigger] free_at(text, n, j) {
        let j = choose|j: nat| j < k0 && #[trigger] free_at(text, n, j);
        lemma_least_free(text, n, j);
    } else {
        assert(free_at(text, n, k0) && forall|j: nat| j < k0 ==> !#[trigger] free_at(text, n, j));
    }
}

/// The copy names avoid every token of the text they were chosen for.
proof fn lemma_fresh_k_free(text: Seq<char>, n: nat)
    ensures
        free_at(text, n, fresh_k(text, n)),
{
    lemma_long_free(text, n, text.len());
    lemma_least_free(text, n, text.len());
}

/// Every item of a `", "`-joined list stands at a position preceded by
/// the start or a space and followed by the end or a comma.
proof fn lemma_joined_item(items: Seq<Seq<char>>, i: int)
    requires
        0 <= i < items.len(),
    ensures
        exists|pos: int| crate::text::occurs_at(crate::text::joined(items, ", "@), items[i], pos)
            && (pos == 0 || crate::text::joined(items, ", "@)[pos - 1] == ' ')
            && (pos + items[i].len() == crate::text::joined(items, ", "@).len()
                || crate::text::joined(items, ", "@)[pos + items[i].len()] == ','),
    decreases items.len(),
{
    reveal_strlit(", ");
    let jn = crate::text::joined(items, ", "@);
    if items.len() == 1 {
        assert(jn == items[0]);
        assert(jn.subrange(0, items[0].len() as int) =~= items[0]);
        assert(crate::text::occurs_at(jn, items[i], 0));
    } else {
        let pre = crate::text::joined(items.drop_last(), ", "@);
        assert(jn == pre + ", "@ + items.last());
        if i == items.len() - 1 {
            let pos: int = pre.len() as int + 2;
            assert(jn.subrange(pos, pos + items[i].len()) =~= items[i]);
            assert(jn[pos - 1] == ' ');
            assert(crate::text::occurs_at(jn, items[i], pos));
        } else {
            lemma_joined_item(items.drop_last(), i);
            let pos = choose|pos: int| crate::text::occurs_at(pre, items.drop_last()[i], pos)
                && (pos == 0 || pre[pos - 1] == ' ')
                && (pos + items.drop_last()[i].len() == pre.len() || pre[pos + items.drop_last()[i].len()] == ',');
            assert(items.drop_last()[i] == items[i]);
            assert(jn.subrange(pos, pos + items[i].len()) =~= pre.subrange(pos, pos + items[i].len()));
            if pos > 0 {
                assert(jn[pos - 1] == pre[pos - 1]);
            }
            if pos + items[i].len() == pre.len() {
                assert(jn[pos + items[i].len()] == ',');
            } else {
                assert(jn[pos + items[i].len()] == pre[pos + items[i].len()]);
            }
            assert(crate::text::occurs_at(jn, items[i], pos));
        }
    }
}

/// Every parameter is a token of the rendered function.
proof fn lemma_param_token(t: LTarget, ps: Seq<Seq<char>>, body: Seq<LStmt>, i: int)
    requires
        all_ident(ps),
        0 <= i < ps.len(),
    ensures
        has_token(used_text(t, ps, body), ps[i]),
{
    let jn = crate::text::joined(ps, ", "@);
    let head = match t {
        LTarget::LocalFn(n) => "local function "@ + n,
        LTarget::Slot(k) => "__mll_fn["@ + decimal(k as nat) + "] = function"@,
        LTarget::Assigned(l) => l + " = function"@,
        LTarget::ThunkSlot(k) => "__mll_tkf"@ + seq!['['] + decimal(k as nat) + "] = function"@,
    };
    let text = used_text(t, ps, body);
    let rest = crate::lua::block_text(body, 0);
    assert(text == head + seq!['('] + jn + seq![')'] + rest);
    lemma_joined_item(ps, i);
    let pos = choose|pos: int| crate::text::occurs_at(jn, ps[i], pos) && (pos == 0 || jn[pos - 1] == ' ')
        && (pos + ps[i].len() == jn.len() || jn[pos + ps[i].len()] == ',');
    let q: int = head.len() as int + 1 + pos;
    let w = ps[i];
    assert(is_ident_text(w));
    assert(text.subrange(q, q + w.len()) =~= jn.subrange(pos, pos + w.len()));
    if pos == 0 {
        assert(text[q - 1] == '(');
    } else {
        assert(text[q - 1] == jn[pos - 1]);
    }
    if pos + w.len() == jn.len() {
        assert(text[q + w.len()] == ')');
    } else {
        assert(text[q + w.len()] == jn[pos + w.len()]);
    }
    assert(crate::tokens::token_at(text, w, q));
}

/// The copy names differ from the parameters: each parameter is a token of
/// the rendered function, and no copy name is.
pub proof fn lemma_copies_apart(t: LTarget, ps: Seq<Seq<char>>, body: Seq<LStmt>)
    requires
        all_ident(ps),
    ensures
        crate::rename::names_apart(ps, ws_of(used_text(t, ps, body), ps.len())),
{
    let text = used_text(t, ps, body);
    let ws = ws_of(text, ps.len());
    lemma_fresh_k_free(text, ps.len());
    assert forall|i: int, j: int| 0 <= i < ps.len() && 0 <= j < ws.len() implies ps[i] != ws[j] by {
        lemma_param_token(t, ps, body, i);
        assert(ws[j] == cand(fresh_k(text, ps.len()), j as nat));
        assert(!has_token(text, cand(fresh_k(text, ps.len()), j as nat)));
    }
}

/// With as many underscores as the text is long, no candidate fits.
proof fn lemma_long_free(text: Seq<char>, n: nat, k: nat)
    requires
        k >= text.len(),
    ensures
        free_at(text, n, k),
{
    reveal_strlit("_w");
    reveal_strlit("_");
    assert forall|i: nat| i < n implies !has_token(text, #[trigger] cand(k, i)) by {
        lemma_repeat_len("_"@, k);
        lemma_decimal_nonempty(i);
        if has_token(text, cand(k, i)) {
            crate::tokens::lemma_token_fits(text, cand(k, i));
        }
    }
}

fn cand_string(k: usize, i: usize) -> (r: String)
    ensures
        r@ == cand(k as nat, i as nat),
{
    let mut s = crate::text::string_from("_w");
    crate::text::push_repeat(&mut s, "_", k);
    let d = crate::text::decimal_string(i as u64);
    crate::text::push_str(&mut s, d.as_str());
    s
}

/// The first `_w…0.._w…{n-1}` family none of whose names is a token of
/// `text`.
pub fn fresh_names(text: &Vec<char>, n: usize) -> (ws: Vec<String>)
    ensures
        strs_model(ws@) == ws_of(text@, n as nat),
        ws@.len() == n,
{
    let tl = text.len();
    let mut k: usize = 0;
    loop
        invariant
            tl == text@.len(),
            k <= text@.len(),
            forall|j: nat| j < k ==> !#[trigger] free_at(text@, n as nat, j),
        ensures
            k <= text@.len(),
            free_at(text@, n as nat, k as nat),
            forall|j: nat| j < k ==> !#[trigger] free_at(text@, n as nat, j),
        decreases text@.len() - k,
    {
        let mut ok = true;
        let mut i: usize = 0;
        while i < n
            invariant
                i <= n,
                ok == forall|i2: nat| i2 < i ==> !has_token(text@, #[trigger] cand(k as nat, i2)),
            decreases n - i,
        {
            if ok {
                let c = cand_string(k, i);
                let cv = crate::text::chars_of(c.as_str());
                if crate::tokens::chars_have_token(text, &cv) {
                    ok = false;
                }
            }
            i = i + 1;
        }
        if ok {
            break;
        }
        proof {
            assert(!free_at(text@, n as nat, k as nat));
            if k >= text@.len() {
                lemma_long_free(text@, n as nat, k as nat);
            }
        }
        k = k + 1;
    }
    proof {
        let kk = fresh_k(text@, n as nat);
        assert(free_at(text@, n as nat, k as nat) && forall|j: nat| j < k ==> !#[trigger] free_at(text@, n as nat, j));
        if kk < k {
            assert(!free_at(text@, n as nat, kk));
        } else if kk > k {
            assert(!free_at(text@, n as nat, k as nat));
        }
        assert(kk == k);
    }
    let mut ws: Vec<String> = Vec::new();
    let mut i: usize = 0;
    while i < n
        invariant
            i <= n,
            ws@.len() == i,
            fresh_k(text@, n as nat) == k,
            forall|j: int| 0 <= j < i ==> #[trigger] ws@[j]@ == cand(k as nat, j as nat),
        decreases n - i,
    {
        ws.push(cand_string(k, i));
        i = i + 1;
    }
    assert(strs_model(ws@) =~= ws_of(text@, n as nat));
    ws
}

pub fn used_text_exec(target: &FnTarget, params: &Vec<String>, body: &Vec<Stmt>) -> (r: Vec<char>)
    ensures
        r@ == used_text(target@, strs_model(params@), stmts_model(body@)),
{
    let mut s = target.header_string(params);
    crate::lua::render_block(body, 0, &mut s);
    crate::text::chars_of(s.as_str())
}

// ---- the conversion ----

pub open spec fn opt_stmts(o: Option<Vec<Stmt>>) -> Option<Seq<LStmt>> {
    match o {
        Some(v) => Some(stmts_model(v@)),
        None => None,
    }
}

/// The converted body of the module-level definition at `k`, or `None`
/// when a gate fails.
pub fn tail_convert_exec(module: &Vec<Stmt>, k: usize, target: &FnTarget, params: &Vec<String>, body: &Vec<Stmt>) -> (r: Option<Vec<Stmt>>)
    requires
        k < module@.len(),
    ensures
        opt_stmts(r) == tail_convert(stmts_model(module@), k as int, target@, strs_model(params@), stmts_model(body@)),
{
    let ghost pm = strs_model(params@);
    let ghost bm = stmts_model(body@);
    let n = match self_target_exec(target, params) {
        Some(n) => n,
        None => return None,
    };
    if !qualifies_exec(module, k, &n) || !tail_has_site_exec(body, &n, params) || blk_stmts_exec(body, params) {
        return None;
    }
    let is_slot = match &n {
        SelfName::Slot(_) => true,
        _ => false,
    };
    if !is_slot && !sr_body_exec(body, &n) {
        return None;
    }
    if params.len() > LOCAL_LIMIT {
        return None;
    }
    let locals = crate::luaopt::count_locals_capped(body, LOCAL_LIMIT + 1);
    if locals + 2 * params.len() > LOCAL_LIMIT {
        return None;
    }
    let falls = !crate::luaopt::block_diverges_exec(body);
    let text = used_text_exec(target, params, body);
    let ws = fresh_names(&text, params.len());
    let ghost wm = strs_model(ws@);
    let empty = NameSet::new();
    let renamed = ren_block_exec(body, params, &ws, &empty);
    assert(empty@ =~= Set::<Seq<char>>::empty());
    let rewritten = rw_tails_exec(renamed, &n, params, falls);
    let mut inner: Vec<Stmt> = Vec::new();
    let mut i: usize = 0;
    while i < params.len()
        invariant
            ws@.len() == params@.len(),
            wm == strs_model(ws@),
            pm == strs_model(params@),
            i <= params@.len(),
            stmts_model(inner@) == copies(wm, pm).take(i as int),
        decreases params@.len() - i,
    {
        let w = ws[i].clone();
        let mut v: Vec<String> = Vec::new();
        v.push(w);
        let c = Stmt::Local(v, Some(Expr::name(params[i].as_str())));
        proof {
            assert(wm[i as int] == ws@[i as int]@);
            assert(pm[i as int] == params@[i as int]@);
            assert(strs_model(v@) =~= seq![wm[i as int]]);
            assert(c@ == copies(wm, pm)[i as int]);
        }
        let ghost before = stmts_model(inner@);
        inner.push(c);
        assert(stmts_model(inner@) =~= before.push(c@));
        assert(copies(wm, pm).take(i as int + 1) =~= copies(wm, pm).take(i as int).push(copies(wm, pm)[i as int]));
        i = i + 1;
    }
    assert(copies(wm, pm).take(params@.len() as int) =~= copies(wm, pm));
    let ghost head = inner@;
    let ghost rwv = rewritten@;
    let mut rw = rewritten;
    inner.append(&mut rw);
    assert(stmts_model(inner@) =~= stmts_model(head) + stmts_model(rwv));
    let ghost mid = inner@;
    if falls {
        let mut g: Vec<Stmt> = Vec::new();
        g.push(Stmt::ReturnNone);
        let d = Stmt::Do(Block(g));
        assert(d@ == LStmt::Do(seq![LStmt::ReturnNone])) by {
            assert(stmts_model(g@) =~= seq![LStmt::ReturnNone]);
        }
        inner.push(d);
        inner.push(Stmt::Label(crate::text::string_from("continue")));
        assert(stmts_model(inner@) =~= stmts_model(mid) + seq![LStmt::Do(seq![LStmt::ReturnNone]), LStmt::Label("continue"@)]);
    }
    proof {
        assert(stmts_model(inner@) =~= loop_inner(bm, n@, pm, wm));
    }
    Some(vec![Stmt::WhileTrue(Block(inner))])
}

} // verus!
