//! Desugaring: `do` blocks become `>>=` chains, and a curried lambda in
//! callee position is flattened into one lambda of all its parameters.
//!
//! ```text
//! do { x <- e; rest }     =>  e >>= \x -> do { rest }
//! do { e; rest }          =>  e >>= \_ -> do { rest }
//! do { let x = e; rest }  =>  let x = e in do { rest }
//! do { p <- e; rest }     =>  e >>= \__tup_i -> case __tup_i of { p -> rest; _ -> error "…" }
//! do { e }                =>  e
//! ```

use vstd::prelude::*;
use crate::ast::{Literal, Pattern, Span, Expr, LocalDef, Guard, CaseBranch, DoStmt, Clause, Method, ClassMethod, Decl, Module,
    MLit, MExpr, MDef, MBranch, MDo, lit_m, names_m, expr_m, exprs_m, def_m, defs_m, guard_m, guards_m, opt_m, branch_m,
    branches_m, do_m, dos_m};
use crate::text::{decimal, decimal_string, chars_of, string_from, push_str};

verus! {

broadcast use vstd::string::group_string_axioms;

// ---------------------------------------------------------------------
// The specification, over the model
// ---------------------------------------------------------------------

pub open spec fn false_lit() -> MExpr {
    MExpr::Lit(MLit::Bool(false))
}

/// A pattern that can never fail to match: variables, wildcards, and
/// tuples of such.
pub open spec fn irrefutable(p: Pattern) -> bool
    decreases p,
{
    match p {
        Pattern::Var(_) => true,
        Pattern::Wildcard => true,
        Pattern::Paren(inner) => irrefutable(*inner),
        Pattern::Tuple(ps) => forall|i: int| 0 <= i < ps@.len() ==> irrefutable(#[trigger] ps@[i]),
        _ => false,
    }
}

/// The head of an application spine.
pub open spec fn spine_head(e: MExpr) -> MExpr
    decreases e,
{
    match e {
        MExpr::App(f, _) => spine_head(*f),
        _ => e,
    }
}

/// The arguments of an application spine, in application order.
pub open spec fn spine_args(e: MExpr) -> Seq<MExpr>
    decreases e,
{
    match e {
        MExpr::App(f, a) => spine_args(*f).push(*a),
        _ => Seq::empty(),
    }
}

/// `e` with its grouping parens peeled.
pub open spec fn unparen(e: MExpr) -> MExpr
    decreases e,
{
    match e {
        MExpr::Paren(b) => unparen(*b),
        _ => e,
    }
}

/// `\ps -> body` with the lambdas nested directly in `body` (through a
/// paren around a lambda) merged into it.
pub open spec fn merge_lambda(ps: Seq<Seq<char>>, body: MExpr) -> MExpr
    decreases body,
{
    match body {
        MExpr::Lambda(inner, ib) => merge_lambda(ps + inner, *ib),
        MExpr::Paren(inner) => if *inner is Lambda {
            merge_lambda(ps, *inner)
        } else {
            MExpr::Lambda(ps, Box::new(body))
        },
        _ => MExpr::Lambda(ps, Box::new(body)),
    }
}

/// `h a1 … an`.
pub open spec fn apply_all(h: MExpr, args: Seq<MExpr>) -> MExpr
    decreases args.len(),
{
    if args.len() == 0 {
        h
    } else {
        MExpr::App(Box::new(apply_all(h, args.drop_last())), Box::new(args.last()))
    }
}

/// An application with its callee's parens peeled and, when the callee is
/// a lambda, its curried lambdas merged into one.
pub open spec fn flatten_callee(app: MExpr) -> MExpr {
    let h = unparen(spine_head(app));
    let h2 = match h {
        MExpr::Lambda(ps, b) => merge_lambda(ps, *b),
        _ => h,
    };
    apply_all(h2, spine_args(app))
}

/// `lhs >>= \param -> body`.
pub open spec fn bind_m(lhs: MExpr, param: Seq<char>, body: MExpr) -> MExpr {
    MExpr::InfixApp(">>="@, Box::new(lhs), Box::new(MExpr::Lambda(seq![param], Box::new(body))))
}

/// The fresh name a pattern bind at position `i` introduces.
pub open spec fn tup_name(i: nat) -> Seq<char> {
    "__tup_"@ + decimal(i)
}

/// The bytes of a text of ASCII characters.
pub open spec fn ascii_bytes(s: Seq<char>) -> Seq<u8> {
    Seq::new(s.len(), |i: int| (s[i] as u32) as u8)
}

/// The message of a failed do-bind pattern match at `line:col`.
pub open spec fn failure_text(line: u32, col: u32) -> Seq<char> {
    "Pattern match failure in do expression at "@ + decimal(line as nat) + ":"@ + decimal(col as nat)
}

/// The alternatives of the `case` a pattern bind becomes: the pattern
/// leads to the rest of the block; a refutable pattern adds a fallback
/// that raises the located failure.
pub open spec fn bind_branches(p: Pattern, rest: MExpr, line: u32, col: u32) -> Seq<MBranch> {
    let first = MBranch { pattern: p, guards: Seq::empty(), body: Some(rest) };
    if irrefutable(p) {
        seq![first]
    } else {
        seq![first, MBranch {
            pattern: Pattern::Wildcard,
            guards: Seq::empty(),
            body: Some(MExpr::App(Box::new(MExpr::Var("error"@)),
                Box::new(MExpr::Lit(MLit::Str(ascii_bytes(failure_text(line, col))))))),
        }]
    }
}

pub open spec fn ds(e: MExpr) -> MExpr
    decreases e, 0nat,
{
    match e {
        MExpr::Do(stmts) => ds_do(stmts),
        MExpr::App(f, a) => flatten_callee(MExpr::App(Box::new(ds(*f)), Box::new(ds(*a)))),
        MExpr::InfixApp(op, l, r) => MExpr::InfixApp(op, Box::new(ds(*l)), Box::new(ds(*r))),
        MExpr::Lambda(ps, b) => MExpr::Lambda(ps, Box::new(ds(*b))),
        MExpr::Let(binds, b) => MExpr::Let(ds_defs(binds), Box::new(ds(*b))),
        MExpr::If(c, t, f) => MExpr::If(Box::new(ds(*c)), Box::new(ds(*t)), Box::new(ds(*f))),
        MExpr::Case(s, brs) => MExpr::Case(Box::new(ds(*s)), ds_branches(brs)),
        MExpr::Paren(b) => MExpr::Paren(Box::new(ds(*b))),
        MExpr::Tuple(es) => MExpr::Tuple(ds_list(es)),
        MExpr::List(es) => MExpr::List(ds_list(es)),
        MExpr::Negate(b) => MExpr::Negate(Box::new(ds(*b))),
        _ => e,
    }
}

pub open spec fn ds_list(s: Seq<MExpr>) -> Seq<MExpr>
    decreases s, 0nat,
{
    Seq::new(s.len(), |i: int| if 0 <= i < s.len() { ds(s[i]) } else { false_lit() })
}

pub open spec fn ds_def(d: MDef) -> MDef
    decreases d, 0nat,
{
    MDef { name: d.name, patterns: d.patterns, body: ds(d.body) }
}

pub open spec fn ds_defs(s: Seq<MDef>) -> Seq<MDef>
    decreases s, 0nat,
{
    Seq::new(s.len(), |i: int| if 0 <= i < s.len() { ds_def(s[i]) } else { s[0] })
}

pub open spec fn ds_guards(s: Seq<(MExpr, MExpr)>) -> Seq<(MExpr, MExpr)>
    decreases s, 0nat,
{
    Seq::new(s.len(), |i: int| if 0 <= i < s.len() { (ds(s[i].0), ds(s[i].1)) } else { s[0] })
}

pub open spec fn ds_opt(o: Option<MExpr>) -> Option<MExpr>
    decreases o, 0nat,
{
    match o {
        Some(e) => Some(ds(e)),
        None => None,
    }
}

pub open spec fn ds_branch(b: MBranch) -> MBranch
    decreases b, 0nat,
{
    MBranch { pattern: b.pattern, guards: ds_guards(b.guards), body: ds_opt(b.body) }
}

pub open spec fn ds_branches(s: Seq<MBranch>) -> Seq<MBranch>
    decreases s, 0nat,
{
    Seq::new(s.len(), |i: int| if 0 <= i < s.len() { ds_branch(s[i]) } else { s[0] })
}

/// A `do` block: its last statement's expression, bound in front by each
/// earlier statement, from the last to the first.
pub open spec fn ds_do(stmts: Seq<MDo>) -> MExpr
    decreases stmts, 2nat,
{
    if stmts.len() == 0 {
        false_lit()
    } else {
        let last = match stmts.last() {
            MDo::Expr(e) => ds(e),
            MDo::Bind(_, e) => ds(e),
            MDo::PatternBind(_, e, _, _) => ds(e),
            MDo::DoLet(binds) => if binds.len() == 0 { false_lit() } else { ds(binds.last().body) },
        };
        ds_chain(stmts, (stmts.len() - 1) as nat, last)
    }
}

/// Statements `0..k` of a `do` block bound in front of `acc`.
pub open spec fn ds_chain(stmts: Seq<MDo>, k: nat, acc: MExpr) -> MExpr
    decreases stmts, 1nat, k,
{
    if k == 0 || k > stmts.len() {
        acc
    } else {
        ds_chain(stmts, (k - 1) as nat, ds_step(stmts, (k - 1) as nat, acc))
    }
}

/// Statement `i` of a `do` block bound in front of `acc`.
pub open spec fn ds_step(stmts: Seq<MDo>, i: nat, acc: MExpr) -> MExpr
    decreases stmts, 0nat, 0nat,
{
    if i < stmts.len() {
        match stmts[i as int] {
            MDo::Expr(e) => bind_m(ds(e), "_"@, acc),
            MDo::Bind(name, e) => bind_m(ds(e), name, acc),
            MDo::DoLet(binds) => MExpr::Let(ds_defs(binds), Box::new(acc)),
            MDo::PatternBind(p, e, line, col) => bind_m(ds(e), tup_name(i),
                MExpr::Case(Box::new(MExpr::Var(tup_name(i))), bind_branches(p, acc, line, col))),
        }
    } else {
        acc
    }
}

// ---------------------------------------------------------------------
// Building blocks
// ---------------------------------------------------------------------

fn pattern_irrefutable(p: &Pattern) -> (r: bool)
    ensures
        r == irrefutable(*p),
    decreases p,
{
    match p {
        Pattern::Var(_) => true,
        Pattern::Wildcard => true,
        Pattern::Paren(inner) => pattern_irrefutable(inner),
        Pattern::Tuple(ps) => all_irrefutable(ps),
        _ => false,
    }
}

fn all_irrefutable(ps: &Vec<Pattern>) -> (r: bool)
    ensures
        r == forall|j: int| 0 <= j < ps@.len() ==> irrefutable(#[trigger] ps@[j]),
    decreases ps,
{
    let mut i: usize = 0;
    while i < ps.len()
        invariant
            i <= ps@.len(),
            forall|j: int| 0 <= j < i ==> irrefutable(#[trigger] ps@[j]),
        decreases ps@.len() - i,
    {
        assert(decreases_to!(ps => ps@[i as int]));
        if !pattern_irrefutable(&ps[i]) {
            assert(!irrefutable(ps@[i as int]));
            return false;
        }
        i = i + 1;
    }
    true
}

fn tup_name_exec(i: usize) -> (r: String)
    ensures
        r@ == tup_name(i as nat),
{
    let mut s = string_from("__tup_");
    let d = decimal_string(i as u64);
    push_str(&mut s, d.as_str());
    proof {
        reveal_strlit("__tup_");
    }
    s
}

fn ascii_bytes_exec(s: &str) -> (r: Vec<u8>)
    ensures
        r@ == ascii_bytes(s@),
{
    let cs = chars_of(s);
    let mut out: Vec<u8> = Vec::new();
    let mut i: usize = 0;
    while i < cs.len()
        invariant
            i <= cs@.len(),
            cs@ == s@,
            out@ =~= ascii_bytes(s@).take(i as int),
        decreases cs@.len() - i,
    {
        let c = cs[i];
        out.push((c as u32) as u8);
        i = i + 1;
    }
    assert(ascii_bytes(s@).take(cs@.len() as int) =~= ascii_bytes(s@));
    out
}

fn failure_bytes(span: &Span) -> (r: Vec<u8>)
    ensures
        r@ == ascii_bytes(failure_text(span.line, span.col)),
{
    let mut s = string_from("Pattern match failure in do expression at ");
    let l = decimal_string(span.line as u64);
    push_str(&mut s, l.as_str());
    push_str(&mut s, ":");
    let c = decimal_string(span.col as u64);
    push_str(&mut s, c.as_str());
    proof {
        reveal_strlit("Pattern match failure in do expression at ");
        reveal_strlit(":");
    }
    ascii_bytes_exec(s.as_str())
}

/// `lhs >>= \param -> body`.
fn bind_exec(lhs: Expr, param: String, body: Expr) -> (r: Expr)
    ensures
        expr_m(r) == bind_m(expr_m(lhs), param@, expr_m(body)),
{
    let ghost lm = expr_m(lhs);
    let ghost bm = expr_m(body);
    let ghost pm = param@;
    let mut ps: Vec<String> = Vec::new();
    ps.push(param);
    proof {
        assert(names_m(ps@) =~= seq![pm]);
    }
    let lam = Expr::Lambda { params: ps, body: Box::new(body) };
    assert(expr_m(lam) == MExpr::Lambda(seq![pm], Box::new(bm)));
    let op = string_from(">>=");
    proof {
        reveal_strlit(">>=");
    }
    let r = Expr::InfixApp { op, lhs: Box::new(lhs), rhs: Box::new(lam) };
    assert(expr_m(r) == MExpr::InfixApp(">>="@, Box::new(lm), Box::new(MExpr::Lambda(seq![pm], Box::new(bm)))));
    r
}

pub open spec fn paren_depth(e: MExpr) -> nat
    decreases e,
{
    match e {
        MExpr::Paren(b) => 1 + paren_depth(*b),
        _ => 0,
    }
}

fn is_app(e: &Expr) -> (r: bool)
    ensures
        r == (expr_m(*e) is App),
{
    match e {
        Expr::App(..) => true,
        _ => false,
    }
}

fn is_paren(e: &Expr) -> (r: bool)
    ensures
        r == (expr_m(*e) is Paren),
{
    match e {
        Expr::Paren(..) => true,
        _ => false,
    }
}

fn is_lambda(e: &Expr) -> (r: bool)
    ensures
        r == (expr_m(*e) is Lambda),
{
    match e {
        Expr::Lambda { .. } => true,
        _ => false,
    }
}

/// `\params -> body`, with the lambdas nested directly in `body` merged in.
fn merge_lambda_exec(params: Vec<String>, body: Expr) -> (r: Expr)
    ensures
        expr_m(r) == merge_lambda(names_m(params@), expr_m(body)),
    decreases body,
{
    let ghost bm = expr_m(body);
    match body {
        Expr::Lambda { params: inner, body: ib } => {
            let mut ps = params;
            let mut inn = inner;
            let ghost p0 = ps@;
            let ghost i0 = inn@;
            ps.append(&mut inn);
            assert(names_m(ps@) =~= names_m(p0) + names_m(i0));
            merge_lambda_exec(ps, *ib)
        },
        Expr::Paren(inner) => {
            if is_lambda(&inner) {
                merge_lambda_exec(params, *inner)
            } else {
                let r = Expr::Lambda { params, body: Box::new(Expr::Paren(inner)) };
                r
            }
        },
        other => Expr::Lambda { params, body: Box::new(other) },
    }
}

/// An application with its callee's parens peeled and a curried callee
/// lambda merged into one.
fn flatten_callee_lambda(app: Expr) -> (r: Expr)
    ensures
        expr_m(r) == flatten_callee(expr_m(app)),
{
    let ghost am = expr_m(app);
    let mut args: Vec<Expr> = Vec::new();
    let mut head = app;
    while is_app(&head)
        invariant
            spine_head(expr_m(head)) == spine_head(am),
            spine_args(am) =~= spine_args(expr_m(head)) + Seq::new(args@.len(), |j: int| expr_m(args@[args@.len() - 1 - j])),
        decreases spine_args(expr_m(head)).len(),
    {
        match head {
            Expr::App(f, a) => {
                let ghost before = Seq::new(args@.len(), |j: int| expr_m(args@[args@.len() - 1 - j]));
                let ghost am2 = expr_m(*a);
                args.push(*a);
                head = *f;
                assert(Seq::new(args@.len(), |j: int| expr_m(args@[args@.len() - 1 - j])) =~= seq![am2] + before);
            },
            other => {
                head = other;
            },
        }
    }
    let ghost full = spine_args(am);
    assert(spine_args(expr_m(head)) =~= Seq::<MExpr>::empty());
    assert(full =~= Seq::new(args@.len(), |j: int| expr_m(args@[args@.len() - 1 - j])));
    while is_paren(&head)
        invariant
            unparen(expr_m(head)) == unparen(spine_head(am)),
        decreases paren_depth(expr_m(head)),
    {
        match head {
            Expr::Paren(b) => {
                head = *b;
            },
            other => {
                head = other;
            },
        }
    }
    let h2 = match head {
        Expr::Lambda { params, body } => merge_lambda_exec(params, *body),
        other => other,
    };
    let ghost hm = expr_m(h2);
    let ghost k0 = args@.len();
    let mut res = h2;
    while args.len() > 0
        invariant
            k0 == full.len(),
            args@.len() <= k0,
            expr_m(res) == apply_all(hm, full.take(k0 - args@.len())),
            forall|j: int| 0 <= j < args@.len() ==> expr_m(#[trigger] args@[j]) == full[k0 - 1 - j],
        decreases args@.len(),
    {
        let ghost m = k0 - args@.len();
        let a = args.pop().unwrap();
        assert(full.take(m + 1).drop_last() =~= full.take(m));
        res = Expr::App(Box::new(res), Box::new(a));
    }
    assert(full.take(k0 as int) =~= full);
    res
}

// ---------------------------------------------------------------------
// The expression walk
// ---------------------------------------------------------------------

fn desugar_expr(e: Expr) -> (r: Expr)
    ensures
        expr_m(r) == ds(expr_m(e)),
    decreases e,
{
    match e {
        Expr::Do(stmts) => desugar_do(stmts),
        Expr::App(f, a) => {
            let f2 = desugar_expr(*f);
            let a2 = desugar_expr(*a);
            flatten_callee_lambda(Expr::App(Box::new(f2), Box::new(a2)))
        },
        Expr::InfixApp { op, lhs, rhs } => {
            let l = desugar_expr(*lhs);
            let r = desugar_expr(*rhs);
            Expr::InfixApp { op, lhs: Box::new(l), rhs: Box::new(r) }
        },
        Expr::Lambda { params, body } => {
            let b = desugar_expr(*body);
            Expr::Lambda { params, body: Box::new(b) }
        },
        Expr::Let { binds, body } => {
            let bs = desugar_defs(binds);
            let b = desugar_expr(*body);
            Expr::Let { binds: bs, body: Box::new(b) }
        },
        Expr::If { cond, then_branch, else_branch } => {
            let c = desugar_expr(*cond);
            let t = desugar_expr(*then_branch);
            let f = desugar_expr(*else_branch);
            Expr::If { cond: Box::new(c), then_branch: Box::new(t), else_branch: Box::new(f) }
        },
        Expr::Case { scrutinee, branches } => {
            let sc = desugar_expr(*scrutinee);
            let bs = desugar_branches(branches);
            Expr::Case { scrutinee: Box::new(sc), branches: bs }
        },
        Expr::Paren(b) => {
            let b2 = desugar_expr(*b);
            Expr::Paren(Box::new(b2))
        },
        Expr::Tuple(es) => Expr::Tuple(desugar_exprs(es)),
        Expr::List(es) => Expr::List(desugar_exprs(es)),
        Expr::Negate(b) => {
            let b2 = desugar_expr(*b);
            Expr::Negate(Box::new(b2))
        },
        Expr::Var(x) => Expr::Var(x),
        Expr::Con(x) => Expr::Con(x),
        Expr::Lit(l) => Expr::Lit(l),
    }
}

fn desugar_exprs(v: Vec<Expr>) -> (r: Vec<Expr>)
    ensures
        exprs_m(r@) == ds_list(exprs_m(v@)),
    decreases v,
{
    let ghost orig = v;
    let mut src = v;
    let mut out: Vec<Expr> = Vec::new();
    while src.len() > 0
        invariant
            orig == v,
            out@.len() + src@.len() == orig@.len(),
            src@ =~= orig@.skip(out@.len() as int),
            forall|j: int| 0 <= j < out@.len() ==> expr_m(#[trigger] out@[j]) == ds(expr_m(orig@[j])),
        decreases src@.len(),
    {
        let ghost k = out@.len() as int;
        let x = src.remove(0);
        assert(x == orig@[k]);
        assert(decreases_to!(orig => orig@[k]));
        let y = desugar_expr(x);
        out.push(y);
    }
    proof {
        assert(exprs_m(out@) =~= ds_list(exprs_m(orig@)));
    }
    out
}

fn desugar_defs(v: Vec<LocalDef>) -> (r: Vec<LocalDef>)
    ensures
        defs_m(r@) == ds_defs(defs_m(v@)),
    decreases v,
{
    let ghost orig = v;
    let mut src = v;
    let mut out: Vec<LocalDef> = Vec::new();
    while src.len() > 0
        invariant
            orig == v,
            out@.len() + src@.len() == orig@.len(),
            src@ =~= orig@.skip(out@.len() as int),
            forall|j: int| 0 <= j < out@.len() ==> def_m(#[trigger] out@[j]) == ds_def(def_m(orig@[j])),
        decreases src@.len(),
    {
        let ghost k = out@.len() as int;
        let x = src.remove(0);
        assert(x == orig@[k]);
        let LocalDef { name, patterns, body } = x;
        assert(decreases_to!(orig => orig@[k]));
        assert(decreases_to!(orig@[k] => orig@[k].body));
        let b = desugar_expr(body);
        out.push(LocalDef { name, patterns, body: b });
    }
    proof {
        assert(defs_m(out@) =~= ds_defs(defs_m(orig@)));
    }
    out
}

fn desugar_guards(v: Vec<Guard>) -> (r: Vec<Guard>)
    ensures
        guards_m(r@) == ds_guards(guards_m(v@)),
    decreases v,
{
    let ghost orig = v;
    let mut src = v;
    let mut out: Vec<Guard> = Vec::new();
    while src.len() > 0
        invariant
            orig == v,
            out@.len() + src@.len() == orig@.len(),
            src@ =~= orig@.skip(out@.len() as int),
            forall|j: int| 0 <= j < out@.len() ==> guard_m(#[trigger] out@[j]) == (ds(guard_m(orig@[j]).0), ds(guard_m(orig@[j]).1)),
        decreases src@.len(),
    {
        let ghost k = out@.len() as int;
        let x = src.remove(0);
        assert(x == orig@[k]);
        let Guard { condition, body } = x;
        assert(decreases_to!(orig => orig@[k]));
        assert(decreases_to!(orig@[k] => orig@[k].condition));
        assert(decreases_to!(orig@[k] => orig@[k].body));
        let c = desugar_expr(condition);
        let b = desugar_expr(body);
        out.push(Guard { condition: c, body: b });
    }
    proof {
        assert(guards_m(out@) =~= ds_guards(guards_m(orig@)));
    }
    out
}

fn desugar_branches(v: Vec<CaseBranch>) -> (r: Vec<CaseBranch>)
    ensures
        branches_m(r@) == ds_branches(branches_m(v@)),
    decreases v,
{
    let ghost orig = v;
    let mut src = v;
    let mut out: Vec<CaseBranch> = Vec::new();
    while src.len() > 0
        invariant
            orig == v,
            out@.len() + src@.len() == orig@.len(),
            src@ =~= orig@.skip(out@.len() as int),
            forall|j: int| 0 <= j < out@.len() ==> branch_m(#[trigger] out@[j]) == ds_branch(branch_m(orig@[j])),
        decreases src@.len(),
    {
        let ghost k = out@.len() as int;
        let x = src.remove(0);
        assert(x == orig@[k]);
        let CaseBranch { pattern, guards, body } = x;
        assert(decreases_to!(orig => orig@[k]));
        assert(decreases_to!(orig@[k] => orig@[k].guards));
        let gs = desugar_guards(guards);
        let b = match body {
            Some(e) => {
                assert(decreases_to!(orig@[k] => orig@[k].body));
                assert(decreases_to!(orig@[k].body => e));
                Some(desugar_expr(e))
            },
            None => None,
        };
        out.push(CaseBranch { pattern, guards: gs, body: b });
    }
    proof {
        assert(branches_m(out@) =~= ds_branches(branches_m(orig@)));
    }
    out
}

/// `d >>= \__tup_i -> case __tup_i of { pattern -> result; _ -> error "…" }`.
fn pattern_bind_exec(i: usize, pattern: Pattern, d: Expr, span: Span, result: Expr) -> (r: Expr)
    ensures
        expr_m(r) == bind_m(expr_m(d), tup_name(i as nat), MExpr::Case(Box::new(MExpr::Var(tup_name(i as nat))),
            bind_branches(pattern, expr_m(result), span.line, span.col))),
{
    let ghost acc = expr_m(result);
    let ghost pat = pattern;
    let fresh = tup_name_exec(i);
    let irr = pattern_irrefutable(&pattern);
    let msg = failure_bytes(&span);
    let mut branches: Vec<CaseBranch> = Vec::new();
    let first = CaseBranch { pattern, guards: Vec::new(), body: Some(result) };
    assert(guards_m(Seq::<Guard>::empty()) =~= Seq::<(MExpr, MExpr)>::empty());
    assert(branch_m(first) == MBranch { pattern: pat, guards: Seq::empty(), body: Some(acc) });
    branches.push(first);
    if !irr {
        let err = string_from("error");
        let ghost mb = msg@;
        let fallback = CaseBranch {
            pattern: Pattern::Wildcard,
            guards: Vec::new(),
            body: Some(Expr::App(Box::new(Expr::Var(err)), Box::new(Expr::Lit(Literal::Str(msg))))),
        };
        proof {
            reveal_strlit("error");
        }
        assert(branch_m(fallback) == MBranch {
            pattern: Pattern::Wildcard,
            guards: Seq::empty(),
            body: Some(MExpr::App(Box::new(MExpr::Var("error"@)), Box::new(MExpr::Lit(MLit::Str(mb))))),
        });
        branches.push(fallback);
    }
    assert(branches_m(branches@) =~= bind_branches(pat, acc, span.line, span.col));
    let scrut = string_from(fresh.as_str());
    let ghost bm = branches_m(branches@);
    assert(scrut@ == fresh@);
    let sv = Expr::Var(scrut);
    assert(expr_m(sv) == MExpr::Var(tup_name(i as nat)));
    let case = Expr::Case { scrutinee: Box::new(sv), branches };
    assert(expr_m(case) == MExpr::Case(Box::new(expr_m(sv)), bm));
    bind_exec(d, fresh, case)
}

/// Statement `i` of a `do` block bound in front of `result`.
fn do_step(i: usize, stmt: DoStmt, result: Expr, Ghost(m): Ghost<Seq<MDo>>) -> (r: Expr)
    requires
        i < m.len(),
        m[i as int] == do_m(stmt),
    ensures
        expr_m(r) == ds_step(m, i as nat, expr_m(result)),
    decreases stmt,
{
    let ghost acc = expr_m(result);
    match stmt {
        DoStmt::Expr(e) => {
            let d = desugar_expr(e);
            let u = string_from("_");
            proof {
                reveal_strlit("_");
            }
            let x = bind_exec(d, u, result);
            assert(expr_m(x) == ds_step(m, i as nat, acc));
            x
        },
        DoStmt::Bind { name, expr } => {
            let d = desugar_expr(expr);
            let x = bind_exec(d, name, result);
            assert(expr_m(x) == ds_step(m, i as nat, acc));
            x
        },
        DoStmt::DoLet { binds } => {
            let bs = desugar_defs(binds);
            let x = Expr::Let { binds: bs, body: Box::new(result) };
            assert(expr_m(x) == ds_step(m, i as nat, acc));
            x
        },
        DoStmt::PatternBind { pattern, expr, span } => {
            let d = desugar_expr(expr);
            let x = pattern_bind_exec(i, pattern, d, span, result);
            assert(expr_m(x) == ds_step(m, i as nat, acc));
            x
        },
    }
}

/// A `do` block as a bind chain, built from its last statement back.
fn desugar_do(stmts: Vec<DoStmt>) -> (r: Expr)
    ensures
        expr_m(r) == ds_do(dos_m(stmts@)),
    decreases stmts,
{
    let ghost orig = stmts;
    let ghost m = dos_m(stmts@);
    let mut src = stmts;
    if src.len() == 0 {
        return Expr::Lit(Literal::Bool(false));
    }
    let ghost n = src@.len();
    let last = src.pop().unwrap();
    assert(last == orig@[n - 1]);
    assert(m.last() == do_m(last));
    assert(decreases_to!(orig => orig@[n - 1]));
    let mut result = match last {
        DoStmt::Expr(e) => desugar_expr(e),
        DoStmt::Bind { name, expr } => desugar_expr(expr),
        DoStmt::PatternBind { pattern, expr, span } => desugar_expr(expr),
        DoStmt::DoLet { binds } => {
            let ghost bs = binds;
            let mut b = binds;
            match b.pop() {
                Some(d) => {
                    assert(d == bs@[bs@.len() - 1]);
                    assert(defs_m(bs@).last() == def_m(d));
                    assert(decreases_to!(bs => bs@[bs@.len() - 1]));
                    let LocalDef { name, patterns, body } = d;
                    desugar_expr(body)
                },
                None => Expr::Lit(Literal::Bool(false)),
            }
        },
    };
    assert(src@ =~= orig@.take(n - 1));
    let ghost target = ds_do(m);
    assert(target == ds_chain(m, (n - 1) as nat, expr_m(result)));
    while src.len() > 0
        invariant
            orig == stmts,
            n == orig@.len(),
            m == dos_m(orig@),
            src@.len() < n,
            src@ =~= orig@.take(src@.len() as int),
            target == ds_chain(m, src@.len() as nat, expr_m(result)),
        decreases src@.len(),
    {
        let i = src.len() - 1;
        let stmt = src.pop().unwrap();
        assert(stmt == orig@[i as int]);
        assert(m[i as int] == do_m(stmt));
        assert(decreases_to!(orig => orig@[i as int]));
        let ghost acc = expr_m(result);
        let next = do_step(i, stmt, result, Ghost(m));
        assert(expr_m(next) == ds_step(m, i as nat, acc));
        result = next;
        assert(src@ =~= orig@.take(src@.len() as int));
    }
    assert(target == expr_m(result));
    result
}

// ---------------------------------------------------------------------
// Clauses, declarations, the module
// ---------------------------------------------------------------------

/// `d` is clause `c` desugared: its patterns as they were, its body, guards
/// and `where` bindings desugared.
pub open spec fn clause_desugared(c: Clause, d: Clause) -> bool {
    &&& d.patterns == c.patterns
    &&& opt_m(d.body) == ds_opt(opt_m(c.body))
    &&& guards_m(d.guards@) == ds_guards(guards_m(c.guards@))
    &&& defs_m(d.where_binds@) == ds_defs(defs_m(c.where_binds@))
}

pub open spec fn clauses_desugared(a: Seq<Clause>, b: Seq<Clause>) -> bool {
    a.len() == b.len() && forall|i: int| 0 <= i < a.len() ==> clause_desugared(#[trigger] a[i], b[i])
}

pub open spec fn class_method_desugared(a: ClassMethod, b: ClassMethod) -> bool {
    b.name == a.name && match (a.default_clauses, b.default_clauses) {
        (Some(x), Some(y)) => clauses_desugared(x@, y@),
        (None, None) => true,
        _ => false,
    }
}

/// `b` is declaration `a` desugared: the equations of a function, of an
/// instance's methods and a class's default methods desugared; every other
/// declaration as it was.
pub open spec fn decl_desugared(a: Decl, b: Decl) -> bool {
    match a {
        Decl::FunDef { name, clauses } => b matches Decl::FunDef { name: n2, clauses: c2 }
            && n2 == name && clauses_desugared(clauses@, c2@),
        Decl::InstanceDecl { class_name, methods } => b matches Decl::InstanceDecl { class_name: k2, methods: m2 }
            && k2 == class_name && m2@.len() == methods@.len()
            && forall|i: int| 0 <= i < methods@.len() ==> (#[trigger] m2@[i]).name == methods@[i].name
                && clauses_desugared(methods@[i].clauses@, m2@[i].clauses@),
        Decl::ClassDecl { name, methods } => b matches Decl::ClassDecl { name: n2, methods: m2 }
            && n2 == name && m2@.len() == methods@.len()
            && forall|i: int| 0 <= i < methods@.len() ==> class_method_desugared(methods@[i], #[trigger] m2@[i]),
        _ => b == a,
    }
}

fn desugar_clause(c: Clause) -> (r: Clause)
    ensures
        clause_desugared(c, r),
{
    let Clause { patterns, guards, body, where_binds } = c;
    let b = match body {
        Some(e) => Some(desugar_expr(e)),
        None => None,
    };
    let gs = desugar_guards(guards);
    let ws = desugar_defs(where_binds);
    Clause { patterns, guards: gs, body: b, where_binds: ws }
}

fn desugar_clauses(v: Vec<Clause>) -> (r: Vec<Clause>)
    ensures
        clauses_desugared(v@, r@),
{
    let ghost orig = v;
    let mut src = v;
    let mut out: Vec<Clause> = Vec::new();
    while src.len() > 0
        invariant
            out@.len() + src@.len() == orig@.len(),
            src@ =~= orig@.skip(out@.len() as int),
            forall|j: int| 0 <= j < out@.len() ==> clause_desugared(orig@[j], #[trigger] out@[j]),
        decreases src@.len(),
    {
        let ghost k = out@.len() as int;
        let x = src.remove(0);
        assert(x == orig@[k]);
        out.push(desugar_clause(x));
    }
    out
}

fn desugar_decl(d: Decl) -> (r: Decl)
    ensures
        decl_desugared(d, r),
{
    match d {
        Decl::FunDef { name, clauses } => Decl::FunDef { name, clauses: desugar_clauses(clauses) },
        Decl::InstanceDecl { class_name, methods } => {
            let ghost orig = methods;
            let mut src = methods;
            let mut out: Vec<Method> = Vec::new();
            while src.len() > 0
                invariant
                    out@.len() + src@.len() == orig@.len(),
                    src@ =~= orig@.skip(out@.len() as int),
                    forall|j: int| 0 <= j < out@.len() ==> (#[trigger] out@[j]).name == orig@[j].name
                        && clauses_desugared(orig@[j].clauses@, out@[j].clauses@),
                decreases src@.len(),
            {
                let ghost k = out@.len() as int;
                let x = src.remove(0);
                assert(x == orig@[k]);
                let Method { name, clauses } = x;
                out.push(Method { name, clauses: desugar_clauses(clauses) });
            }
            Decl::InstanceDecl { class_name, methods: out }
        },
        Decl::ClassDecl { name, methods } => {
            let ghost orig = methods;
            let mut src = methods;
            let mut out: Vec<ClassMethod> = Vec::new();
            while src.len() > 0
                invariant
                    out@.len() + src@.len() == orig@.len(),
                    src@ =~= orig@.skip(out@.len() as int),
                    forall|j: int| 0 <= j < out@.len() ==> class_method_desugared(orig@[j], #[trigger] out@[j]),
                decreases src@.len(),
            {
                let ghost k = out@.len() as int;
                let x = src.remove(0);
                assert(x == orig@[k]);
                let ClassMethod { name: mname, default_clauses } = x;
                let dc = match default_clauses {
                    Some(cs) => Some(desugar_clauses(cs)),
                    None => None,
                };
                out.push(ClassMethod { name: mname, default_clauses: dc });
            }
            Decl::ClassDecl { name, methods: out }
        },
        other => other,
    }
}

/// Desugar every expression body of the module: function equations,
/// instance methods and class default methods.
pub fn desugar_module(module: &mut Module)
    ensures
        final(module).decls@.len() == old(module).decls@.len(),
        forall|i: int| 0 <= i < old(module).decls@.len() ==> decl_desugared(old(module).decls@[i], #[trigger] final(module).decls@[i]),
{
    let mut src: Vec<Decl> = Vec::new();
    std::mem::swap(&mut src, &mut module.decls);
    let ghost orig = src;
    let mut out: Vec<Decl> = Vec::new();
    while src.len() > 0
        invariant
            out@.len() + src@.len() == orig@.len(),
            src@ =~= orig@.skip(out@.len() as int),
            forall|j: int| 0 <= j < out@.len() ==> decl_desugared(orig@[j], #[trigger] out@[j]),
        decreases src@.len(),
    {
        let ghost k = out@.len() as int;
        let x = src.remove(0);
        assert(x == orig@[k]);
        out.push(desugar_decl(x));
    }
    module.decls = out;
}

} // verus!
