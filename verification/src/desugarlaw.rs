//! Desugaring removes every `do` block.

use vstd::prelude::*;
use crate::ast::{Pattern, MLit, MExpr, MDef, MBranch, MDo};
use crate::desugar::{ds, ds_list, ds_defs, ds_guards, ds_opt, ds_branch, ds_branches, ds_do, ds_chain, ds_step, false_lit,
    spine_head, spine_args, unparen, merge_lambda, apply_all, flatten_callee, bind_branches, tup_name, ascii_bytes,
    failure_text, bind_m};

verus! {

// ---------------------------------------------------------------------
// No `do` survives
// ---------------------------------------------------------------------

/// No `do` block anywhere in the expression.
pub open spec fn no_do(e: MExpr) -> bool
    decreases e,
{
    match e {
        MExpr::Do(_) => false,
        MExpr::App(f, a) => no_do(*f) && no_do(*a),
        MExpr::InfixApp(_, l, r) => no_do(*l) && no_do(*r),
        MExpr::Lambda(_, b) => no_do(*b),
        MExpr::Let(binds, b) => no_do_defs(binds) && no_do(*b),
        MExpr::If(c, t, f) => no_do(*c) && no_do(*t) && no_do(*f),
        MExpr::Case(s, brs) => no_do(*s) && no_do_branches(brs),
        MExpr::Paren(b) => no_do(*b),
        MExpr::Tuple(es) => no_do_list(es),
        MExpr::List(es) => no_do_list(es),
        MExpr::Negate(b) => no_do(*b),
        _ => true,
    }
}

pub open spec fn no_do_list(s: Seq<MExpr>) -> bool
    decreases s,
{
    forall|i: int| 0 <= i < s.len() ==> no_do(#[trigger] s[i])
}

pub open spec fn no_do_defs(s: Seq<MDef>) -> bool
    decreases s,
{
    forall|i: int| 0 <= i < s.len() ==> no_do((#[trigger] s[i]).body)
}

pub open spec fn no_do_branches(s: Seq<MBranch>) -> bool
    decreases s,
{
    forall|i: int| 0 <= i < s.len() ==> no_do_branch(#[trigger] s[i])
}

pub open spec fn no_do_branch(b: MBranch) -> bool
    decreases b,
{
    (forall|j: int| 0 <= j < b.guards.len() ==> no_do((#[trigger] b.guards[j]).0) && no_do(b.guards[j].1))
        && match b.body {
            Some(x) => no_do(x),
            None => true,
        }
}

proof fn lemma_spine_no_do(e: MExpr)
    requires
        no_do(e),
    ensures
        no_do(spine_head(e)),
        no_do_list(spine_args(e)),
    decreases e,
{
    match e {
        MExpr::App(f, a) => {
            lemma_spine_no_do(*f);
            assert(spine_args(e) == spine_args(*f).push(*a));
        },
        _ => {},
    }
}

proof fn lemma_unparen_no_do(e: MExpr)
    requires
        no_do(e),
    ensures
        no_do(unparen(e)),
    decreases e,
{
    match e {
        MExpr::Paren(b) => lemma_unparen_no_do(*b),
        _ => {},
    }
}

proof fn lemma_merge_no_do(ps: Seq<Seq<char>>, body: MExpr)
    requires
        no_do(body),
    ensures
        no_do(merge_lambda(ps, body)),
    decreases body,
{
    match body {
        MExpr::Lambda(inner, ib) => lemma_merge_no_do(ps + inner, *ib),
        MExpr::Paren(inner) => {
            if *inner is Lambda {
                lemma_merge_no_do(ps, *inner);
            }
        },
        _ => {},
    }
}

proof fn lemma_apply_no_do(h: MExpr, args: Seq<MExpr>)
    requires
        no_do(h),
        no_do_list(args),
    ensures
        no_do(apply_all(h, args)),
    decreases args.len(),
{
    if args.len() > 0 {
        assert(no_do_list(args.drop_last())) by {
            assert forall|i: int| 0 <= i < args.drop_last().len() implies no_do(#[trigger] args.drop_last()[i]) by {
                assert(args.drop_last()[i] == args[i]);
            }
        }
        lemma_apply_no_do(h, args.drop_last());
        assert(no_do(args[args.len() - 1]));
    }
}

proof fn lemma_flatten_no_do(app: MExpr)
    requires
        no_do(app),
    ensures
        no_do(flatten_callee(app)),
{
    lemma_spine_no_do(app);
    lemma_unparen_no_do(spine_head(app));
    let h = unparen(spine_head(app));
    match h {
        MExpr::Lambda(ps, b) => lemma_merge_no_do(ps, *b),
        _ => {},
    }
    let h2 = match h {
        MExpr::Lambda(ps, b) => merge_lambda(ps, *b),
        _ => h,
    };
    lemma_apply_no_do(h2, spine_args(app));
}

/// Desugaring leaves no `do` block anywhere in an expression.
pub proof fn lemma_desugar_removes_do(e: MExpr)
    ensures
        no_do(ds(e)),
    decreases e, 0nat,
{
    match e {
        MExpr::Do(stmts) => lemma_ds_do_no_do(stmts),
        MExpr::App(f, a) => {
            lemma_desugar_removes_do(*f);
            lemma_desugar_removes_do(*a);
            lemma_flatten_no_do(MExpr::App(Box::new(ds(*f)), Box::new(ds(*a))));
        },
        MExpr::InfixApp(_, l, r) => {
            lemma_desugar_removes_do(*l);
            lemma_desugar_removes_do(*r);
        },
        MExpr::Lambda(_, b) => lemma_desugar_removes_do(*b),
        MExpr::Let(binds, b) => {
            lemma_defs_no_do(binds);
            lemma_desugar_removes_do(*b);
        },
        MExpr::If(c, t, f) => {
            lemma_desugar_removes_do(*c);
            lemma_desugar_removes_do(*t);
            lemma_desugar_removes_do(*f);
        },
        MExpr::Case(sc, brs) => {
            lemma_desugar_removes_do(*sc);
            lemma_branches_no_do(brs);
        },
        MExpr::Paren(b) => lemma_desugar_removes_do(*b),
        MExpr::Tuple(es) => lemma_list_no_do(es),
        MExpr::List(es) => lemma_list_no_do(es),
        MExpr::Negate(b) => lemma_desugar_removes_do(*b),
        _ => {},
    }
}

proof fn lemma_list_no_do(s: Seq<MExpr>)
    ensures
        no_do_list(ds_list(s)),
    decreases s, 0nat,
{
    assert forall|i: int| 0 <= i < ds_list(s).len() implies no_do(#[trigger] ds_list(s)[i]) by {
        lemma_desugar_removes_do(s[i]);
    }
}

proof fn lemma_defs_no_do(s: Seq<MDef>)
    ensures
        no_do_defs(ds_defs(s)),
    decreases s, 0nat,
{
    assert forall|i: int| 0 <= i < ds_defs(s).len() implies no_do((#[trigger] ds_defs(s)[i]).body) by {
        lemma_desugar_removes_do(s[i].body);
    }
}

proof fn lemma_guards_no_do(gs: Seq<(MExpr, MExpr)>)
    ensures
        forall|j: int| 0 <= j < ds_guards(gs).len() ==> no_do((#[trigger] ds_guards(gs)[j]).0) && no_do(ds_guards(gs)[j].1),
    decreases gs, 0nat,
{
    assert forall|j: int| 0 <= j < ds_guards(gs).len() implies no_do((#[trigger] ds_guards(gs)[j]).0)
        && no_do(ds_guards(gs)[j].1) by {
        lemma_desugar_removes_do(gs[j].0);
        lemma_desugar_removes_do(gs[j].1);
    }
}

proof fn lemma_branch_no_do(b: MBranch)
    ensures
        no_do_branch(ds_branch(b)),
    decreases b, 0nat,
{
    let db = ds_branch(b);
    assert(db.guards == ds_guards(b.guards));
    assert(db.body == ds_opt(b.body));
    lemma_guards_no_do(b.guards);
    match b.body {
        Some(x) => lemma_desugar_removes_do(x),
        None => {},
    }
}

proof fn lemma_branches_no_do(s: Seq<MBranch>)
    ensures
        no_do_branches(ds_branches(s)),
    decreases s, 0nat,
{
    assert forall|i: int| 0 <= i < ds_branches(s).len() implies no_do_branch(#[trigger] ds_branches(s)[i]) by {
        assert(ds_branches(s)[i] == ds_branch(s[i]));
        lemma_branch_no_do(s[i]);
    }
}

proof fn lemma_bind_branches_no_do(p: Pattern, acc: MExpr, line: u32, col: u32)
    requires
        no_do(acc),
    ensures
        no_do_branches(bind_branches(p, acc, line, col)),
{
    let bs = bind_branches(p, acc, line, col);
    assert forall|j: int| 0 <= j < bs.len() implies no_do_branch(#[trigger] bs[j]) by {
        assert(bs[j].guards.len() == 0);
        if j == 1 {
            let e = MExpr::App(Box::new(MExpr::Var("error"@)),
                Box::new(MExpr::Lit(MLit::Str(ascii_bytes(failure_text(line, col))))));
            assert(no_do(MExpr::Var("error"@)));
            assert(no_do(MExpr::Lit(MLit::Str(ascii_bytes(failure_text(line, col))))));
            assert(no_do(e));
        }
    }
}

proof fn lemma_ds_do_no_do(stmts: Seq<MDo>)
    ensures
        no_do(ds_do(stmts)),
    decreases stmts, 2nat,
{
    if stmts.len() > 0 {
        match stmts.last() {
            MDo::Expr(e) => lemma_desugar_removes_do(e),
            MDo::Bind(_, e) => lemma_desugar_removes_do(e),
            MDo::PatternBind(_, e, _, _) => lemma_desugar_removes_do(e),
            MDo::DoLet(binds) => {
                if binds.len() > 0 {
                    lemma_desugar_removes_do(binds.last().body);
                }
            },
        }
        let last = match stmts.last() {
            MDo::Expr(e) => ds(e),
            MDo::Bind(_, e) => ds(e),
            MDo::PatternBind(_, e, _, _) => ds(e),
            MDo::DoLet(binds) => if binds.len() == 0 { false_lit() } else { ds(binds.last().body) },
        };
        lemma_chain_no_do(stmts, (stmts.len() - 1) as nat, last);
    }
}

proof fn lemma_chain_no_do(stmts: Seq<MDo>, k: nat, acc: MExpr)
    requires
        no_do(acc),
    ensures
        no_do(ds_chain(stmts, k, acc)),
    decreases stmts, 1nat, k,
{
    if k > 0 && k <= stmts.len() {
        lemma_step_no_do(stmts, (k - 1) as nat, acc);
        lemma_chain_no_do(stmts, (k - 1) as nat, ds_step(stmts, (k - 1) as nat, acc));
    }
}

proof fn lemma_bind_no_do(lhs: MExpr, param: Seq<char>, body: MExpr)
    requires
        no_do(lhs),
        no_do(body),
    ensures
        no_do(bind_m(lhs, param, body)),
{
    let l = MExpr::Lambda(seq![param], Box::new(body));
    assert(no_do(l));
}

proof fn lemma_step_no_do(stmts: Seq<MDo>, i: nat, acc: MExpr)
    requires
        no_do(acc),
    ensures
        no_do(ds_step(stmts, i, acc)),
    decreases stmts, 0nat, 0nat,
{
    if i < stmts.len() {
        match stmts[i as int] {
            MDo::Expr(e) => {
                lemma_desugar_removes_do(e);
                lemma_bind_no_do(ds(e), "_"@, acc);
            },
            MDo::Bind(name, e) => {
                lemma_desugar_removes_do(e);
                lemma_bind_no_do(ds(e), name, acc);
            },
            MDo::DoLet(binds) => lemma_defs_no_do(binds),
            MDo::PatternBind(p, e, line, col) => {
                lemma_desugar_removes_do(e);
                lemma_bind_branches_no_do(p, acc, line, col);
                let c = MExpr::Case(Box::new(MExpr::Var(tup_name(i))), bind_branches(p, acc, line, col));
                assert(no_do(MExpr::Var(tup_name(i))));
                assert(no_do(c));
                lemma_bind_no_do(ds(e), tup_name(i), c);
            },
        }
    }
}


// ---------------------------------------------------------------------
// Nothing to desugar, nothing changed
// ---------------------------------------------------------------------

/// Nothing to desugar: no `do` block anywhere, and no application whose
/// callee's head is a parenthesized expression or a lambda.
pub open spec fn plain(e: MExpr) -> bool
    decreases e,
{
    match e {
        MExpr::Do(_) => false,
        MExpr::App(f, a) => plain(*f) && plain(*a) && !(spine_head(*f) is Paren) && !(spine_head(*f) is Lambda),
        MExpr::InfixApp(_, l, r) => plain(*l) && plain(*r),
        MExpr::Lambda(_, b) => plain(*b),
        MExpr::Let(binds, b) => plain_defs(binds) && plain(*b),
        MExpr::If(c, t, f) => plain(*c) && plain(*t) && plain(*f),
        MExpr::Case(sc, brs) => plain(*sc) && plain_branches(brs),
        MExpr::Paren(b) => plain(*b),
        MExpr::Tuple(es) => plain_list(es),
        MExpr::List(es) => plain_list(es),
        MExpr::Negate(b) => plain(*b),
        _ => true,
    }
}

pub open spec fn plain_list(s: Seq<MExpr>) -> bool
    decreases s,
{
    s.len() == 0 || (plain_list(s.drop_last()) && plain(s.last()))
}

pub open spec fn plain_defs(s: Seq<MDef>) -> bool
    decreases s,
{
    s.len() == 0 || (plain_defs(s.drop_last()) && plain(s.last().body))
}

pub open spec fn plain_guards(s: Seq<(MExpr, MExpr)>) -> bool
    decreases s,
{
    s.len() == 0 || (plain_guards(s.drop_last()) && plain(s.last().0) && plain(s.last().1))
}

pub open spec fn plain_branches(s: Seq<MBranch>) -> bool
    decreases s,
{
    s.len() == 0 || (plain_branches(s.drop_last()) && plain_guards(s.last().guards) && match s.last().body {
        Some(x) => plain(x),
        None => true,
    })
}

/// Desugaring is the identity on an expression with nothing to desugar:
/// every node, branch, argument and binding stays where it was.
pub proof fn lemma_desugar_plain_identity(e: MExpr)
    requires
        plain(e),
    ensures
        ds(e) == e,
    decreases e,
{
    match e {
        MExpr::App(f, a) => {
            lemma_desugar_plain_identity(*f);
            lemma_desugar_plain_identity(*a);
            assert(spine_head(e) == spine_head(*f));
            assert(unparen(spine_head(e)) == spine_head(e));
            lemma_apply_spine(e);
        },
        MExpr::InfixApp(_, l, r) => {
            lemma_desugar_plain_identity(*l);
            lemma_desugar_plain_identity(*r);
        },
        MExpr::Lambda(_, b) => lemma_desugar_plain_identity(*b),
        MExpr::Let(binds, b) => {
            lemma_plain_defs(binds);
            lemma_desugar_plain_identity(*b);
        },
        MExpr::If(c, t, f) => {
            lemma_desugar_plain_identity(*c);
            lemma_desugar_plain_identity(*t);
            lemma_desugar_plain_identity(*f);
        },
        MExpr::Case(sc, brs) => {
            lemma_desugar_plain_identity(*sc);
            lemma_plain_branches(brs);
        },
        MExpr::Paren(b) => lemma_desugar_plain_identity(*b),
        MExpr::Tuple(es) => lemma_plain_list(es),
        MExpr::List(es) => lemma_plain_list(es),
        MExpr::Negate(b) => lemma_desugar_plain_identity(*b),
        _ => {},
    }
}

/// An application is its spine's head applied to its spine's arguments.
proof fn lemma_apply_spine(e: MExpr)
    ensures
        apply_all(spine_head(e), spine_args(e)) == e,
    decreases e,
{
    match e {
        MExpr::App(f, a) => {
            lemma_apply_spine(*f);
            assert(spine_args(e).drop_last() =~= spine_args(*f));
        },
        _ => {},
    }
}

proof fn lemma_plain_list(s: Seq<MExpr>)
    requires
        plain_list(s),
    ensures
        ds_list(s) == s,
    decreases s,
{
    if s.len() > 0 {
        let i = s.len() - 1;
        assert(s.last() == s[i]);
        lemma_plain_list(s.drop_last());
        lemma_desugar_plain_identity(s[i]);
        assert forall|j: int| 0 <= j < s.len() implies ds_list(s)[j] == s[j] by {
            if j < i {
                assert(ds_list(s.drop_last())[j] == ds(s.drop_last()[j]));
                assert(s.drop_last()[j] == s[j]);
            }
        }
    }
    assert(ds_list(s) =~= s);
}

proof fn lemma_plain_defs(s: Seq<MDef>)
    requires
        plain_defs(s),
    ensures
        ds_defs(s) == s,
    decreases s,
{
    if s.len() > 0 {
        let i = s.len() - 1;
        assert(s.last() == s[i]);
        lemma_plain_defs(s.drop_last());
        lemma_desugar_plain_identity(s[i].body);
        assert forall|j: int| 0 <= j < s.len() implies ds_defs(s)[j] == s[j] by {
            if j < i {
                assert(ds_defs(s.drop_last())[j] == crate::desugar::ds_def(s.drop_last()[j]));
                assert(s.drop_last()[j] == s[j]);
            }
        }
    }
    assert(ds_defs(s) =~= s);
}

proof fn lemma_plain_guards(s: Seq<(MExpr, MExpr)>)
    requires
        plain_guards(s),
    ensures
        ds_guards(s) == s,
    decreases s,
{
    if s.len() > 0 {
        let i = s.len() - 1;
        assert(s.last() == s[i]);
        lemma_plain_guards(s.drop_last());
        lemma_desugar_plain_identity(s[i].0);
        lemma_desugar_plain_identity(s[i].1);
        assert forall|j: int| 0 <= j < s.len() implies ds_guards(s)[j] == s[j] by {
            if j < i {
                assert(ds_guards(s.drop_last())[j] == (ds(s.drop_last()[j].0), ds(s.drop_last()[j].1)));
                assert(s.drop_last()[j] == s[j]);
            }
        }
    }
    assert(ds_guards(s) =~= s);
}

proof fn lemma_plain_branches(s: Seq<MBranch>)
    requires
        plain_branches(s),
    ensures
        ds_branches(s) == s,
    decreases s,
{
    if s.len() > 0 {
        let i = s.len() - 1;
        let b = s[i];
        assert(s.last() == b);
        lemma_plain_branches(s.drop_last());
        lemma_plain_guards(b.guards);
        match b.body {
            Some(x) => lemma_desugar_plain_identity(x),
            None => {},
        }
        assert(ds_branch(b) == b);
        assert forall|j: int| 0 <= j < s.len() implies ds_branches(s)[j] == s[j] by {
            if j < i {
                assert(ds_branches(s.drop_last())[j] == ds_branch(s.drop_last()[j]));
                assert(s.drop_last()[j] == s[j]);
            }
        }
    }
    assert(ds_branches(s) =~= s);
}

} // verus!
