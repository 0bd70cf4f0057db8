//! Direct-perform IO self-loop conversion.
//!
//! A self-recursive IO/ST function that performs at call time and recurses
//! through the forwarding runner at its action tail
//! (`return __mll_run_tail(<self>(…))`) keeps one interpreter frame pinned
//! per level. The conversion has two steps, applied only when every gate
//! holds:
//!
//! 1. Normalize the action tail into the direct shape: a runner applied to
//!    a dispatch IIFE splices the IIFE's body, each of its returns wrapped
//!    in the runner the pending application performed; a runner applied to
//!    a zero-parameter action closure splices the closure's body verbatim.
//!    A splice is admitted only where control cannot fall out of it into
//!    following code: the spliced body diverges, or the return is in
//!    function-tail position. Outside a spliced IIFE a return must be a
//!    terminal the runner is the identity on (a literal, a fresh table, a
//!    `__mll_pure(…)` box, a runner result) or a pure-suspension closure,
//!    kept verbatim (its payload returned bare when it is itself such a
//!    terminal). Loop scaffolding, multiple assignments and Raw text
//!    spelling `return` decline the whole conversion.
//! 2. Loop: per-iteration copies, the body renamed onto them, and every
//!    `return __mll_run_tail(<self>(e…))` becoming the simultaneous update
//!    plus `goto continue` to the label at the loop end.
//!
//! Dropping the pending outer runner applications is sound because the
//! runner is idempotent on every value it returns.

use vstd::prelude::*;
use crate::lua::{Expr, FuncBody, Stmt, Block, FnTarget, LExpr, LBody, LStmt, LTarget,
    strs_model, stmts_model, exprs_model, arms_model};
use crate::tailloop::{SName, SelfName, self_target, qualifies, blk_stmts, ren_block, ws_of, used_text, peel};
use crate::loopcore::{is_name, run_tail_arg, any_site, rw_sites, scaffold};
use crate::luaopt::{block_diverges, count_locals, LOCAL_LIMIT};
use crate::tokens::has_token;

verus! {

broadcast use vstd::string::group_string_axioms;

/// The statements of a function body, whatever its layout.
pub open spec fn body_stmts(b: LBody) -> Seq<LStmt> {
    match b {
        LBody::Inline(ss) => ss,
        LBody::Block(ss) => ss,
    }
}

/// A zero-parameter function literal (grouping parens peeled): its body.
pub open spec fn closure_stmts(e: LExpr) -> Option<Seq<LStmt>> {
    match peel(e) {
        LExpr::Func(ps, b) => if ps.len() == 0 { Some(body_stmts(b)) } else { None },
        _ => None,
    }
}

/// A terminal the runner is provably the identity on.
pub open spec fn identity_terminal(e: LExpr) -> bool {
    match e {
        LExpr::Lit(_) => true,
        LExpr::Table(_) => true,
        LExpr::TableSpaced(_) => true,
        LExpr::Call(f, args) => is_name(*f, "__mll_pure"@) && args.len() == 1,
        _ => false,
    }
}

/// A pure-suspension closure `function() return <p> end` (no runner in
/// the return): its payload.
pub open spec fn pure_susp(e: LExpr) -> Option<LExpr> {
    match closure_stmts(e) {
        Some(ss) => if ss.len() == 1 && ss[0] is Return && run_tail_arg(ss[0]->Return_0) is None {
            Some(ss[0]->Return_0)
        } else {
            None
        },
        None => None,
    }
}

/// The terminal statement for a pure-suspension closure: an identity
/// payload returns bare, anything else keeps the closure.
pub open spec fn susp_terminal(e: LExpr) -> LStmt {
    match pure_susp(e) {
        Some(p) => if identity_terminal(p) { LStmt::Return(p) } else { LStmt::Return(e) },
        None => LStmt::Return(e),
    }
}

/// A runner application of `x`.
pub open spec fn run_tail_of(x: LExpr) -> LExpr {
    LExpr::Call(Box::new(LExpr::Name("__mll_run_tail"@)), seq![x])
}

pub proof fn lemma_closure_smaller(e: LExpr)
    ensures
        closure_stmts(e) is Some ==> decreases_to!(e => closure_stmts(e)->0),
    decreases e,
{
    match e {
        LExpr::Paren(b) => {
            lemma_closure_smaller(*b);
        },
        LExpr::Func(ps, b) => {
            match b {
                LBody::Inline(ss) => {},
                LBody::Block(ss) => {},
            }
        },
        _ => {},
    }
}

/// `x` stands where a runner application is pending (see the module
/// comment); `tail` — this position is the function body's end.
pub open spec fn norm_action(x: LExpr, tail: bool) -> Option<Seq<LStmt>>
    decreases x, 1nat,
{
    match x {
        LExpr::Call(f, args) => if is_name(*f, "__mll_run_tail"@) && args.len() == 1 {
            norm_action(args[0], tail)
        } else if args.len() == 0 && closure_stmts(*f) is Some {
            let body = closure_stmts(*f)->0;
            proof {
                lemma_closure_smaller(*f);
            }
            if !tail && !block_diverges(body) {
                None
            } else {
                norm_block(body, tail, true)
            }
        } else {
            Some(seq![LStmt::Return(run_tail_of(x))])
        },
        _ => if pure_susp(x) is Some {
            Some(seq![susp_terminal(x)])
        } else if closure_stmts(x) is Some {
            let body = closure_stmts(x)->0;
            proof {
                lemma_closure_smaller(x);
            }
            if !tail && !block_diverges(body) {
                None
            } else {
                norm_block(body, tail, false)
            }
        } else {
            Some(seq![LStmt::Return(run_tail_of(x))])
        },
    }
}

/// A `return e`: the runner's argument is pending either way; inside a
/// spliced IIFE (`action`) every value gets the runner the original
/// applied; otherwise only the identity-terminal vocabulary is admitted.
pub open spec fn norm_return(e: LExpr, tail: bool, action: bool) -> Option<Seq<LStmt>>
    decreases e, 2nat,
{
    match run_tail_arg(e) {
        Some(x) => norm_action(x, tail),
        None => if action {
            norm_action(e, tail)
        } else if identity_terminal(e) {
            Some(seq![LStmt::Return(e)])
        } else if pure_susp(e) is Some {
            Some(seq![susp_terminal(e)])
        } else {
            None
        },
    }
}

/// One statement; `last` — it ends its block (a `return` anywhere else is
/// outside the vocabulary); `tail` — its end is the function body's end.
pub open spec fn norm_stmt(s: LStmt, tail: bool, action: bool, last: bool) -> Option<Seq<LStmt>>
    decreases s, 0nat,
{
    match s {
        LStmt::Return(e) => if last { norm_return(e, tail, action) } else { None },
        LStmt::If(c, t, arms, els) => match (norm_block(t, tail, action), norm_arms(arms, tail, action)) {
            (Some(t2), Some(a2)) => match els {
                Some(b) => match norm_block(b, tail, action) {
                    Some(b2) => Some(seq![LStmt::If(c, t2, a2, Some(b2))]),
                    None => None,
                },
                None => Some(seq![LStmt::If(c, t2, a2, None)]),
            },
            _ => None,
        },
        LStmt::Do(b) => match norm_block(b, tail, action) {
            Some(b2) => Some(seq![LStmt::Do(b2)]),
            None => None,
        },
        LStmt::WhileTrue(_) => None,
        LStmt::Goto(_) => None,
        LStmt::Label(_) => None,
        LStmt::ReturnNone => None,
        LStmt::ReturnTable(_) => None,
        LStmt::MultiAssign(_, _) => None,
        LStmt::Raw(t) => if has_token(t, "return"@) { None } else { Some(seq![s]) },
        _ => Some(seq![s]),
    }
}

/// A block: the statements before the last are never in tail position.
pub open spec fn norm_block(ss: Seq<LStmt>, tail: bool, action: bool) -> Option<Seq<LStmt>>
    decreases ss, 0nat,
{
    if ss.len() == 0 {
        Some(ss)
    } else {
        match (norm_prefix(ss.drop_last(), action), norm_stmt(ss.last(), tail, action, true)) {
            (Some(a), Some(b)) => Some(a + b),
            _ => None,
        }
    }
}

pub open spec fn norm_prefix(ss: Seq<LStmt>, action: bool) -> Option<Seq<LStmt>>
    decreases ss, 0nat,
{
    if ss.len() == 0 {
        Some(ss)
    } else {
        match (norm_prefix(ss.drop_last(), action), norm_stmt(ss.last(), false, action, false)) {
            (Some(a), Some(b)) => Some(a + b),
            _ => None,
        }
    }
}

pub open spec fn norm_arms(arms: Seq<(LExpr, Seq<LStmt>)>, tail: bool, action: bool) -> Option<Seq<(LExpr, Seq<LStmt>)>>
    decreases arms, 0nat,
{
    if arms.len() == 0 {
        Some(arms)
    } else {
        match (norm_arms(arms.drop_last(), tail, action), norm_block(arms.last().1, tail, action)) {
            (Some(a), Some(b)) => Some(a.push((arms.last().0, b))),
            _ => None,
        }
    }
}

/// The converted body of the module-level definition at `k`, when every
/// gate holds.
pub open spec fn perform_convert(ss: Seq<LStmt>, k: int, t: LTarget, ps: Seq<Seq<char>>, body: Seq<LStmt>) -> Option<Seq<LStmt>> {
    match self_target(t, ps) {
        Some(n) => if !qualifies(ss, k, n) {
            None
        } else {
            match norm_block(body, true, false) {
                Some(nb) => if !any_site(nb, n, ps) || blk_stmts(nb, ps) {
                    None
                } else {
                    let ws = ws_of(used_text(t, ps, nb), ps.len());
                    let inner = scaffold(ws, ps, rw_sites(ren_block(nb, ps, ws, Set::empty()), n, ps));
                    if count_locals(inner) + ps.len() > LOCAL_LIMIT {
                        None
                    } else {
                        Some(seq![LStmt::WhileTrue(inner)])
                    }
                },
                None => None,
            }
        },
        None => None,
    }
}

// ---------------------------------------------------------------------
// Step 1, computed
// ---------------------------------------------------------------------

fn body_stmts_ref(b: &FuncBody) -> (r: &Vec<Stmt>)
    ensures
        stmts_model(r@) == body_stmts(b@),
{
    match b {
        FuncBody::Inline(ss) => ss,
        FuncBody::Block(Block(ss)) => ss,
    }
}

/// Is `e` a zero-parameter function literal (parens peeled)?
fn closure_check(e: &Expr) -> (r: bool)
    ensures
        r == closure_stmts(e@) is Some,
    decreases e,
{
    match e {
        Expr::Paren(b) => closure_check(b),
        Expr::Func(ps, body) => {
            assert(e@ == LExpr::Func(strs_model(ps@), body@));
            ps.len() == 0
        },
        _ => false,
    }
}

/// The body of a zero-parameter function literal, taken out of it.
pub fn take_closure_stmts(e: Expr) -> (r: Vec<Stmt>)
    requires
        closure_stmts(e@) is Some,
    ensures
        stmts_model(r@) == closure_stmts(e@)->0,
        decreases_to!(e => r),
    decreases e,
{
    let ghost em = e@;
    match e {
        Expr::Paren(b) => {
            assert(em == LExpr::Paren(Box::new((*b)@)));
            take_closure_stmts(*b)
        },
        Expr::Func(ps, body) => {
            assert(em == LExpr::Func(strs_model(ps@), body@));
            match body {
                FuncBody::Inline(ss) => {
                    assert(body@ == LBody::Inline(stmts_model(ss@)));
                    ss
                },
                FuncBody::Block(Block(ss)) => {
                    assert(body@ == LBody::Block(stmts_model(ss@)));
                    ss
                },
            }
        },
        _ => {
            assert(false);
            Vec::new()
        },
    }
}

fn identity_terminal_exec(e: &Expr) -> (r: bool)
    ensures
        r == identity_terminal(e@),
{
    match e {
        Expr::Lit(_) => true,
        Expr::Table(_) => true,
        Expr::TableSpaced(_) => true,
        Expr::Call(f, args) => {
            assert(e@ == LExpr::Call(Box::new((**f)@), exprs_model(args@)));
            crate::loopcore::is_name_exec(f, "__mll_pure") && args.len() == 1
        },
        _ => false,
    }
}

/// The payload of a pure-suspension closure.
fn pure_susp_exec(e: &Expr) -> (r: Option<&Expr>)
    ensures
        crate::loopcore::opt_expr(r) == pure_susp(e@),
    decreases e,
{
    match e {
        Expr::Paren(b) => pure_susp_exec(b),
        Expr::Func(ps, body) => {
            assert(e@ == LExpr::Func(strs_model(ps@), body@));
            if ps.len() != 0 {
                return None;
            }
            let ss = body_stmts_ref(body);
            if ss.len() != 1 {
                return None;
            }
            assert(stmts_model(ss@)[0] == ss@[0]@);
            match &ss[0] {
                Stmt::Return(inner) => {
                    if crate::loopcore::run_tail_arg_exec(inner).is_none() {
                        Some(inner)
                    } else {
                        None
                    }
                },
                _ => None,
            }
        },
        _ => None,
    }
}

/// The payload of a pure-suspension closure, taken out of it.
fn take_susp_payload(e: Expr) -> (r: Expr)
    requires
        pure_susp(e@) is Some,
    ensures
        pure_susp(e@) == Some(r@),
    decreases e,
{
    let ghost em = e@;
    match e {
        Expr::Paren(b) => {
            assert(em == LExpr::Paren(Box::new((*b)@)));
            take_susp_payload(*b)
        },
        Expr::Func(ps, body) => {
            assert(em == LExpr::Func(strs_model(ps@), body@));
            let mut ss = match body {
                FuncBody::Inline(ss) => {
                    assert(body@ == LBody::Inline(stmts_model(ss@)));
                    ss
                },
                FuncBody::Block(Block(ss)) => {
                    assert(body@ == LBody::Block(stmts_model(ss@)));
                    ss
                },
            };
            assert(stmts_model(ss@).len() == 1);
            assert(stmts_model(ss@)[0] == ss@[0]@);
            match ss.pop().unwrap() {
                Stmt::Return(inner) => inner,
                _ => {
                    assert(false);
                    Expr::Lit(crate::text::string_from("nil"))
                },
            }
        },
        _ => {
            assert(false);
            Expr::Lit(crate::text::string_from("nil"))
        },
    }
}

fn susp_terminal_exec(e: Expr) -> (r: Stmt)
    ensures
        r@ == susp_terminal(e@),
{
    let keep = match pure_susp_exec(&e) {
        Some(p) => !identity_terminal_exec(p),
        None => true,
    };
    if keep {
        Stmt::Return(e)
    } else {
        Stmt::Return(take_susp_payload(e))
    }
}

fn run_tail_of_exec(x: Expr) -> (r: Expr)
    ensures
        r@ == run_tail_of(x@),
{
    let mut args: Vec<Expr> = Vec::new();
    args.push(x);
    let r = Expr::call_named("__mll_run_tail", args);
    assert(exprs_model(args@) =~= seq![x@]);
    r
}

/// The argument of `__mll_run_tail(<e>)`, taken out of it.
fn take_run_tail_arg(e: Expr) -> (r: Expr)
    requires
        run_tail_arg(e@) is Some,
    ensures
        run_tail_arg(e@) == Some(r@),
        decreases_to!(e => r),
{
    match e {
        Expr::Call(_, args) => {
            let mut args = args;
            assert(exprs_model(args@)[0] == args@[0]@);
            assert(decreases_to!(args => args@[0]));
            args.pop().unwrap()
        },
        _ => {
            assert(false);
            Expr::Lit(crate::text::string_from("nil"))
        },
    }
}

fn one_stmt(s: Stmt) -> (r: Vec<Stmt>)
    ensures
        stmts_model(r@) == seq![s@],
{
    let mut v: Vec<Stmt> = Vec::new();
    v.push(s);
    assert(stmts_model(v@) =~= seq![s@]);
    v
}

fn norm_action_exec(x: Expr, tail: bool) -> (r: Option<Vec<Stmt>>)
    ensures
        crate::tailloop::opt_stmts(r) == norm_action(x@, tail),
    decreases x, 1nat,
{
    let ghost xm = x@;
    match x {
        Expr::Call(f, args) => {
            assert(xm == LExpr::Call(Box::new((*f)@), exprs_model(args@)));
            let rt = crate::loopcore::is_name_exec(&f, "__mll_run_tail") && args.len() == 1;
            if rt {
                let mut args = args;
                assert(exprs_model(args@)[0] == args@[0]@);
                assert(decreases_to!(x => args@[0]));
                let a = args.pop().unwrap();
                return norm_action_exec(a, tail);
            }
            if args.len() == 0 && closure_check(&f) {
                let body = take_closure_stmts(*f);
                if !tail && !crate::luaopt::block_diverges_exec(&body) {
                    return None;
                }
                return norm_block_exec(body, tail, true);
            }
            let call = Expr::Call(f, args);
            assert(call@ == xm);
            Some(one_stmt(Stmt::Return(run_tail_of_exec(call))))
        },
        other => {
            if pure_susp_exec(&other).is_some() {
                return Some(one_stmt(susp_terminal_exec(other)));
            }
            if closure_check(&other) {
                let body = take_closure_stmts(other);
                if !tail && !crate::luaopt::block_diverges_exec(&body) {
                    return None;
                }
                return norm_block_exec(body, tail, false);
            }
            Some(one_stmt(Stmt::Return(run_tail_of_exec(other))))
        },
    }
}

fn norm_return_exec(e: Expr, tail: bool, action: bool) -> (r: Option<Vec<Stmt>>)
    ensures
        crate::tailloop::opt_stmts(r) == norm_return(e@, tail, action),
    decreases e, 2nat,
{
    if crate::loopcore::run_tail_arg_exec(&e).is_some() {
        let x = take_run_tail_arg(e);
        return norm_action_exec(x, tail);
    }
    if action {
        return norm_action_exec(e, tail);
    }
    if identity_terminal_exec(&e) {
        return Some(one_stmt(Stmt::Return(e)));
    }
    if pure_susp_exec(&e).is_some() {
        return Some(one_stmt(susp_terminal_exec(e)));
    }
    None
}

fn norm_stmt_exec(s: Stmt, tail: bool, action: bool, last: bool) -> (r: Option<Vec<Stmt>>)
    ensures
        crate::tailloop::opt_stmts(r) == norm_stmt(s@, tail, action, last),
    decreases s, 0nat,
{
    let ghost sm = s@;
    match s {
        Stmt::Return(e) => if last { norm_return_exec(e, tail, action) } else { None },
        Stmt::If { cond, then_b, elseifs, else_b } => {
            let t2 = norm_block_exec(then_b.0, tail, action);
            let a2 = norm_arms_exec(elseifs, tail, action);
            match (t2, a2) {
                (Some(t2), Some(a2)) => match else_b {
                    Some(b) => match norm_block_exec(b.0, tail, action) {
                        Some(b2) => Some(one_stmt(Stmt::If { cond, then_b: Block(t2), elseifs: a2, else_b: Some(Block(b2)) })),
                        None => None,
                    },
                    None => Some(one_stmt(Stmt::If { cond, then_b: Block(t2), elseifs: a2, else_b: None })),
                },
                _ => None,
            }
        },
        Stmt::Do(b) => match norm_block_exec(b.0, tail, action) {
            Some(b2) => Some(one_stmt(Stmt::Do(Block(b2)))),
            None => None,
        },
        Stmt::WhileTrue(_) => None,
        Stmt::Goto(_) => None,
        Stmt::Label(_) => None,
        Stmt::ReturnNone => None,
        Stmt::ReturnTable(_) => None,
        Stmt::MultiAssign(_, _) => None,
        Stmt::Raw(t) => {
            if crate::tokens::str_has_token(t.as_str(), "return") {
                None
            } else {
                Some(one_stmt(Stmt::Raw(t)))
            }
        },
        other => {
            assert(other@ == sm);
            Some(one_stmt(other))
        },
    }
}

fn norm_block_exec(ss: Vec<Stmt>, tail: bool, action: bool) -> (r: Option<Vec<Stmt>>)
    ensures
        crate::tailloop::opt_stmts(r) == norm_block(stmts_model(ss@), tail, action),
    decreases ss, 0nat,
{
    let ghost s0 = ss@;
    let ghost m = stmts_model(ss@);
    let len = ss.len();
    if len == 0 {
        return Some(ss);
    }
    let mut rest = ss;
    let e0: Vec<Stmt> = Vec::new();
    assert(stmts_model(e0@) =~= Seq::<LStmt>::empty());
    let mut acc: Option<Vec<Stmt>> = Some(e0);
    let mut i: usize = 0;
    assert(m.take(0) =~= Seq::<LStmt>::empty());
    while i + 1 < len
        invariant
            len == s0.len(),
            len > 0,
            ss@ == s0,
            m == stmts_model(s0),
            i + 1 <= len,
            rest@ == s0.skip(i as int),
            crate::tailloop::opt_stmts(acc) == norm_prefix(m.take(i as int), action),
        decreases len - i,
    {
        let st = rest.remove(0);
        assert(s0[i as int] == st);
        assert(m[i as int] == st@);
        assert(decreases_to!(ss => ss@[i as int]));
        assert(m.take(i as int + 1).drop_last() =~= m.take(i as int));
        let next = match acc {
            Some(a) => match norm_stmt_exec(st, false, action, false) {
                Some(v) => {
                    let ghost am = stmts_model(a@);
                    let ghost vm = stmts_model(v@);
                    let mut a = a;
                    let mut v = v;
                    a.append(&mut v);
                    assert(stmts_model(a@) =~= am + vm);
                    Some(a)
                },
                None => None,
            },
            None => None,
        };
        acc = next;
        assert(rest@ =~= s0.skip(i as int + 1));
        i = i + 1;
    }
    assert(i + 1 == len);
    assert(m.drop_last() =~= m.take(i as int));
    let last = rest.remove(0);
    assert(s0[i as int] == last);
    assert(m.last() == last@);
    assert(decreases_to!(ss => ss@[i as int]));
    match acc {
        None => None,
        Some(a) => match norm_stmt_exec(last, tail, action, true) {
            Some(v) => {
                let ghost am = stmts_model(a@);
                let ghost vm = stmts_model(v@);
                let mut a = a;
                let mut v = v;
                a.append(&mut v);
                assert(stmts_model(a@) =~= am + vm);
                Some(a)
            },
            None => None,
        },
    }
}

fn norm_arms_exec(arms: Vec<(Expr, Block)>, tail: bool, action: bool) -> (r: Option<Vec<(Expr, Block)>>)
    ensures
        match r {
            Some(v) => norm_arms(arms_model(arms@), tail, action) == Some(arms_model(v@)),
            None => norm_arms(arms_model(arms@), tail, action) is None,
        },
    decreases arms, 0nat,
{
    let ghost a0 = arms@;
    let ghost am = arms_model(arms@);
    let len = arms.len();
    let mut rest = arms;
    let e0: Vec<(Expr, Block)> = Vec::new();
    assert(arms_model(e0@) =~= Seq::<(LExpr, Seq<LStmt>)>::empty());
    let mut acc: Option<Vec<(Expr, Block)>> = Some(e0);
    let mut i: usize = 0;
    assert(am.take(0) =~= Seq::<(LExpr, Seq<LStmt>)>::empty());
    while rest.len() > 0
        invariant
            len == a0.len(),
            arms@ == a0,
            am == arms_model(a0),
            i <= len,
            rest@ == a0.skip(i as int),
            match acc {
                Some(v) => norm_arms(am.take(i as int), tail, action) == Some(arms_model(v@)),
                None => norm_arms(am.take(i as int), tail, action) is None,
            },
        decreases rest@.len(),
    {
        assert(a0.skip(i as int).len() > 0);
        let (c, b) = rest.remove(0);
        assert(a0[i as int] == (c, b));
        assert(am[i as int] == (c@, stmts_model(b.0@)));
        assert(decreases_to!(arms => arms@[i as int]));
        assert(am.take(i as int + 1).drop_last() =~= am.take(i as int));
        let next = match acc {
            Some(v) => match norm_block_exec(b.0, tail, action) {
                Some(nb) => {
                    let ghost vm = arms_model(v@);
                    let mut v = v;
                    let ghost cm = c@;
                    let ghost nbm = stmts_model(nb@);
                    v.push((c, Block(nb)));
                    assert(arms_model(v@) =~= vm.push((cm, nbm)));
                    Some(v)
                },
                None => None,
            },
            None => None,
        };
        acc = next;
        assert(rest@ =~= a0.skip(i as int + 1));
        i = i + 1;
    }
    assert(am.take(len as int) =~= am);
    acc
}

// ---------------------------------------------------------------------
// The conversion, computed
// ---------------------------------------------------------------------

/// The converted body of the module-level definition at `k`, or `None`
/// when a gate fails.
pub fn perform_convert_exec(module: &Vec<Stmt>, k: usize, target: &FnTarget, params: &Vec<String>, body: &Vec<Stmt>) -> (r: Option<Vec<Stmt>>)
    requires
        k < module@.len(),
    ensures
        crate::tailloop::opt_stmts(r) == perform_convert(stmts_model(module@), k as int, target@, strs_model(params@), stmts_model(body@)),
{
    let n = match crate::tailloop::self_target_exec(target, params) {
        Some(n) => n,
        None => return None,
    };
    if !crate::tailloop::qualifies_exec(module, k, &n) {
        return None;
    }
    let copy = crate::luacopy::copy_stmts(body);
    let normalized = match norm_block_exec(copy, true, false) {
        Some(v) => v,
        None => return None,
    };
    if !crate::loopcore::any_site_exec(&normalized, &n, params) || crate::tailloop::blk_stmts_exec(&normalized, params) {
        return None;
    }
    let text = crate::tailloop::used_text_exec(target, params, &normalized);
    let ws = crate::tailloop::fresh_names(&text, params.len());
    let empty = crate::demand::NameSet::new();
    assert(empty@ =~= Set::<Seq<char>>::empty());
    let renamed = crate::tailloop::ren_block_exec(&normalized, params, &ws, &empty);
    let sites = crate::loopcore::rw_sites_exec(renamed, &n, params);
    let inner = crate::loopcore::scaffold_exec(&ws, params, sites);
    if params.len() > LOCAL_LIMIT {
        return None;
    }
    let locals = crate::luaopt::count_locals_capped(&inner, LOCAL_LIMIT + 1);
    if locals + params.len() > LOCAL_LIMIT {
        return None;
    }
    let mut out: Vec<Stmt> = Vec::new();
    let ghost im = stmts_model(inner@);
    let w = Stmt::WhileTrue(Block(inner));
    assert(w@ == LStmt::WhileTrue(im));
    out.push(w);
    assert(stmts_model(out@) =~= seq![LStmt::WhileTrue(im)]);
    Some(out)
}

} // verus!
