//! The typed intermediate representation as values, and deep copies that
//! keep them.

use vstd::prelude::*;
use crate::tir::{TLiteral, TPattern, SpecKind, TExpr, TExprKind, TCaseBranch, TGuard, TLocalDef, TClause, TFunction};
use crate::types::Ty;
use crate::fold::{LitV, lit_v};
use crate::lua::strs_model;
use crate::tailloop::copy_strings;

verus! {

broadcast use vstd::string::group_string_axioms;

/// A type, as a value.
pub enum STy {
    Var(Seq<char>),
    Skolem(Seq<char>),
    Con(Seq<char>),
    Unit,
    Promoted(Seq<char>),
    Arrow(Box<STy>, Box<STy>),
    App(Box<STy>, Box<STy>),
    List(Box<STy>),
    IO(Box<STy>),
    LuaIO(Seq<char>, Box<STy>),
    Tuple(Seq<STy>),
    Forall(Seq<Seq<char>>, Box<STy>),
}

pub open spec fn sty(t: Ty) -> STy
    decreases t,
{
    match t {
        Ty::Var(s) => STy::Var(s@),
        Ty::Skolem(s) => STy::Skolem(s@),
        Ty::Con(s) => STy::Con(s@),
        Ty::Unit => STy::Unit,
        Ty::Promoted(s) => STy::Promoted(s@),
        Ty::Arrow(a, b) => STy::Arrow(Box::new(sty(*a)), Box::new(sty(*b))),
        Ty::App(a, b) => STy::App(Box::new(sty(*a)), Box::new(sty(*b))),
        Ty::List(a) => STy::List(Box::new(sty(*a))),
        Ty::IO(a) => STy::IO(Box::new(sty(*a))),
        Ty::LuaIO(s, a) => STy::LuaIO(s@, Box::new(sty(*a))),
        Ty::Tuple(ts) => STy::Tuple(stys(ts@)),
        Ty::Forall(vs, b) => STy::Forall(strs_model(vs@), Box::new(sty(*b))),
    }
}

pub open spec fn stys(ts: Seq<Ty>) -> Seq<STy>
    decreases ts,
{
    Seq::new(ts.len(), |i: int| if 0 <= i < ts.len() { sty(ts[i]) } else { STy::Unit })
}

/// A pattern, as a value.
pub enum SPat {
    Var(Seq<char>, STy),
    Wildcard,
    LitPat(LitV),
    Constructor { name: Seq<char>, args: Seq<SPat> },
    Paren(Box<SPat>),
    Tuple(Seq<SPat>),
}

pub open spec fn spat(p: TPattern) -> SPat
    decreases p,
{
    match p {
        TPattern::Var(n, t) => SPat::Var(n@, sty(t)),
        TPattern::Wildcard => SPat::Wildcard,
        TPattern::LitPat(l) => SPat::LitPat(lit_v(l)),
        TPattern::Constructor { name, args } => SPat::Constructor { name: name@, args: spats(args@) },
        TPattern::Paren(b) => SPat::Paren(Box::new(spat(*b))),
        TPattern::Tuple(ps) => SPat::Tuple(spats(ps@)),
    }
}

pub open spec fn spats(ps: Seq<TPattern>) -> Seq<SPat>
    decreases ps,
{
    Seq::new(ps.len(), |i: int| if 0 <= i < ps.len() { spat(ps[i]) } else { SPat::Wildcard })
}

/// A specialization kind, as a value.
pub enum SSpec {
    Dict(Seq<(Seq<char>, Seq<char>)>),
    DictCtor(Seq<(Seq<char>, Seq<char>)>),
    ListEq(Seq<char>),
    MaybeEq(Seq<char>),
    ShowList(Seq<char>),
    ShowMaybe(Seq<char>),
    TupleEq(Seq<Seq<char>>),
    Host(Seq<char>),
    Io(Seq<char>),
    IoTup(Seq<char>),
    TupRet(Seq<char>),
    Iter(Seq<char>),
    Try(Seq<char>),
    Pcall(Seq<char>),
    IoPcall(Seq<char>),
    Const(Seq<char>),
    TupGet(usize),
}

pub open spec fn pairs_model(ms: Seq<(String, String)>) -> Seq<(Seq<char>, Seq<char>)> {
    ms.map_values(|m: (String, String)| (m.0@, m.1@))
}

pub open spec fn sspec(k: SpecKind) -> SSpec {
    match k {
        SpecKind::Dict { methods } => SSpec::Dict(pairs_model(methods@)),
        SpecKind::DictCtor { methods } => SSpec::DictCtor(pairs_model(methods@)),
        SpecKind::ListEq(s) => SSpec::ListEq(s@),
        SpecKind::MaybeEq(s) => SSpec::MaybeEq(s@),
        SpecKind::ShowList(s) => SSpec::ShowList(s@),
        SpecKind::ShowMaybe(s) => SSpec::ShowMaybe(s@),
        SpecKind::TupleEq(ns) => SSpec::TupleEq(strs_model(ns@)),
        SpecKind::Host(s) => SSpec::Host(s@),
        SpecKind::Io(s) => SSpec::Io(s@),
        SpecKind::IoTup { host } => SSpec::IoTup(host@),
        SpecKind::TupRet { host } => SSpec::TupRet(host@),
        SpecKind::Iter(s) => SSpec::Iter(s@),
        SpecKind::Try(s) => SSpec::Try(s@),
        SpecKind::Pcall(s) => SSpec::Pcall(s@),
        SpecKind::IoPcall(s) => SSpec::IoPcall(s@),
        SpecKind::Const(s) => SSpec::Const(s@),
        SpecKind::TupGet(i) => SSpec::TupGet(i),
    }
}

/// An expression, as a value.
pub struct SExpr {
    pub kind: SKind,
    pub ty: STy,
}

pub enum SKind {
    Var(Seq<char>),
    Con(Seq<char>),
    Lit(LitV),
    OpFunc(Seq<char>),
    App(Box<SExpr>, Box<SExpr>),
    InfixApp { op: Seq<char>, lhs: Box<SExpr>, rhs: Box<SExpr> },
    Lambda { params: Seq<(Seq<char>, STy)>, body: Box<SExpr> },
    Negate(Box<SExpr>),
    Paren(Box<SExpr>),
    If { cond: Box<SExpr>, then_branch: Box<SExpr>, else_branch: Box<SExpr> },
    Case { scrutinee: Box<SExpr>, branches: Seq<SBranch> },
    Let { binds: Seq<SDef>, body: Box<SExpr> },
    Tuple(Seq<SExpr>),
    SpecCall { original: Seq<char>, specialized: SSpec, args: Seq<SExpr> },
    DictCall { func_name: Seq<char>, dict_args: Seq<SExpr>, value_args: Seq<SExpr> },
    DictMethod { dict: Box<SExpr>, method_name: Seq<char> },
    DictAccess { class_name: Seq<char>, method_name: Seq<char> },
    RecordUpdate { record: Box<SExpr>, updates: Seq<(Seq<char>, usize, SExpr)> },
    OutgoingCallback { callee: Box<SExpr>, arity: usize },
    FfiMaybeArg { value: Box<SExpr> },
}

pub struct SBranch {
    pub pattern: SPat,
    pub guards: Seq<SGuard>,
    pub body: SExpr,
}

pub struct SGuard {
    pub condition: SExpr,
    pub body: SExpr,
}

pub struct SDef {
    pub name: Seq<char>,
    pub patterns: Seq<SPat>,
    pub body: SExpr,
}

pub open spec fn sexpr(e: TExpr) -> SExpr
    decreases e,
{
    SExpr { kind: skind(e.kind), ty: sty(e.ty) }
}

pub open spec fn skind(k: TExprKind) -> SKind
    decreases k,
{
    match k {
        TExprKind::Var(s) => SKind::Var(s@),
        TExprKind::Con(s) => SKind::Con(s@),
        TExprKind::Lit(l) => SKind::Lit(lit_v(l)),
        TExprKind::OpFunc(s) => SKind::OpFunc(s@),
        TExprKind::App(f, a) => SKind::App(Box::new(sexpr(*f)), Box::new(sexpr(*a))),
        TExprKind::InfixApp { op, lhs, rhs } => SKind::InfixApp { op: op@, lhs: Box::new(sexpr(*lhs)), rhs: Box::new(sexpr(*rhs)) },
        TExprKind::Lambda { params, body } => SKind::Lambda { params: sparams(params@), body: Box::new(sexpr(*body)) },
        TExprKind::Negate(x) => SKind::Negate(Box::new(sexpr(*x))),
        TExprKind::Paren(x) => SKind::Paren(Box::new(sexpr(*x))),
        TExprKind::If { cond, then_branch, else_branch } => SKind::If {
            cond: Box::new(sexpr(*cond)),
            then_branch: Box::new(sexpr(*then_branch)),
            else_branch: Box::new(sexpr(*else_branch)),
        },
        TExprKind::Case { scrutinee, branches } => SKind::Case { scrutinee: Box::new(sexpr(*scrutinee)), branches: sbranches(branches@) },
        TExprKind::Let { binds, body } => SKind::Let { binds: sdefs(binds@), body: Box::new(sexpr(*body)) },
        TExprKind::Tuple(es) => SKind::Tuple(sexprs(es@)),
        TExprKind::SpecCall { original, specialized, args } => SKind::SpecCall {
            original: original@,
            specialized: sspec(specialized),
            args: sexprs(args@),
        },
        TExprKind::DictCall { func_name, dict_args, value_args } => SKind::DictCall {
            func_name: func_name@,
            dict_args: sexprs(dict_args@),
            value_args: sexprs(value_args@),
        },
        TExprKind::DictMethod { dict, method_name } => SKind::DictMethod { dict: Box::new(sexpr(*dict)), method_name: method_name@ },
        TExprKind::DictAccess { class_name, method_name } => SKind::DictAccess { class_name: class_name@, method_name: method_name@ },
        TExprKind::RecordUpdate { record, updates } => SKind::RecordUpdate { record: Box::new(sexpr(*record)), updates: supdates(updates@) },
        TExprKind::OutgoingCallback { callee, arity } => SKind::OutgoingCallback { callee: Box::new(sexpr(*callee)), arity },
        TExprKind::FfiMaybeArg { value } => SKind::FfiMaybeArg { value: Box::new(sexpr(*value)) },
    }
}

pub open spec fn sparams(ps: Seq<(String, Ty)>) -> Seq<(Seq<char>, STy)> {
    ps.map_values(|p: (String, Ty)| (p.0@, sty(p.1)))
}

pub open spec fn sexprs(es: Seq<TExpr>) -> Seq<SExpr>
    decreases es,
{
    Seq::new(es.len(), |i: int| if 0 <= i < es.len() { sexpr(es[i]) } else { SExpr { kind: SKind::Var(Seq::empty()), ty: STy::Unit } })
}

pub open spec fn sguard(g: TGuard) -> SGuard
    decreases g,
{
    SGuard { condition: sexpr(g.condition), body: sexpr(g.body) }
}

pub open spec fn sguards(gs: Seq<TGuard>) -> Seq<SGuard>
    decreases gs,
{
    Seq::new(gs.len(), |i: int| if 0 <= i < gs.len() { sguard(gs[i]) } else { SGuard {
        condition: SExpr { kind: SKind::Var(Seq::empty()), ty: STy::Unit },
        body: SExpr { kind: SKind::Var(Seq::empty()), ty: STy::Unit },
    } })
}

pub open spec fn sbranch(b: TCaseBranch) -> SBranch
    decreases b,
{
    SBranch { pattern: spat(b.pattern), guards: sguards(b.guards@), body: sexpr(b.body) }
}

pub open spec fn sbranches(bs: Seq<TCaseBranch>) -> Seq<SBranch>
    decreases bs,
{
    Seq::new(bs.len(), |i: int| if 0 <= i < bs.len() { sbranch(bs[i]) } else { SBranch {
        pattern: SPat::Wildcard,
        guards: Seq::empty(),
        body: SExpr { kind: SKind::Var(Seq::empty()), ty: STy::Unit },
    } })
}

pub open spec fn sdef(d: TLocalDef) -> SDef
    decreases d,
{
    SDef { name: d.name@, patterns: spats(d.patterns@), body: sexpr(d.body) }
}

pub open spec fn sdefs(ds: Seq<TLocalDef>) -> Seq<SDef>
    decreases ds,
{
    Seq::new(ds.len(), |i: int| if 0 <= i < ds.len() { sdef(ds[i]) } else { SDef {
        name: Seq::empty(),
        patterns: Seq::empty(),
        body: SExpr { kind: SKind::Var(Seq::empty()), ty: STy::Unit },
    } })
}

pub open spec fn supdates(us: Seq<(String, usize, TExpr)>) -> Seq<(Seq<char>, usize, SExpr)>
    decreases us,
{
    Seq::new(us.len(), |i: int| if 0 <= i < us.len() { (us[i].0@, us[i].1, sexpr(us[i].2)) } else {
        (Seq::empty(), 0usize, SExpr { kind: SKind::Var(Seq::empty()), ty: STy::Unit })
    })
}


pub struct SClause {
    pub patterns: Seq<SPat>,
    pub guards: Seq<SGuard>,
    pub body: SExpr,
    pub where_binds: Seq<SDef>,
}

pub struct SFn {
    pub name: Seq<char>,
    pub ty: STy,
    pub dict_params: Seq<Seq<char>>,
    pub clauses: Seq<SClause>,
    pub derived_strict: bool,
}

pub open spec fn sclause(c: TClause) -> SClause {
    SClause { patterns: spats(c.patterns@), guards: sguards(c.guards@), body: sexpr(c.body), where_binds: sdefs(c.where_binds@) }
}

pub open spec fn sclauses(cs: Seq<TClause>) -> Seq<SClause> {
    cs.map_values(|c: TClause| sclause(c))
}

pub open spec fn sfn(f: TFunction) -> SFn {
    SFn {
        name: f.name@,
        ty: sty(f.ty),
        dict_params: strs_model(f.dict_params@),
        clauses: sclauses(f.clauses@),
        derived_strict: f.derived_strict,
    }
}

pub open spec fn sfns(fs: Seq<TFunction>) -> Seq<SFn> {
    fs.map_values(|f: TFunction| sfn(f))
}

// ---------------------------------------------------------------------
// Deep copies
// ---------------------------------------------------------------------

pub fn copy_ty(t: &Ty) -> (r: Ty)
    ensures
        sty(r) == sty(*t),
    decreases t,
{
    match t {
        Ty::Var(s) => Ty::Var(s.clone()),
        Ty::Skolem(s) => Ty::Skolem(s.clone()),
        Ty::Con(s) => Ty::Con(s.clone()),
        Ty::Unit => Ty::Unit,
        Ty::Promoted(s) => Ty::Promoted(s.clone()),
        Ty::Arrow(a, b) => Ty::Arrow(Box::new(copy_ty(a)), Box::new(copy_ty(b))),
        Ty::App(a, b) => Ty::App(Box::new(copy_ty(a)), Box::new(copy_ty(b))),
        Ty::List(a) => Ty::List(Box::new(copy_ty(a))),
        Ty::IO(a) => Ty::IO(Box::new(copy_ty(a))),
        Ty::LuaIO(s, a) => Ty::LuaIO(s.clone(), Box::new(copy_ty(a))),
        Ty::Tuple(ts) => {
            let v = copy_tys(ts);
            let r = Ty::Tuple(v);
            assert(sty(r) == STy::Tuple(stys(v@)));
            r
        },
        Ty::Forall(vs, b) => {
            let v = copy_strings(vs);
            let r = Ty::Forall(v, Box::new(copy_ty(b)));
            r
        },
    }
}

pub fn copy_tys(ts: &Vec<Ty>) -> (r: Vec<Ty>)
    ensures
        stys(r@) == stys(ts@),
    decreases ts,
{
    let mut out: Vec<Ty> = Vec::new();
    let mut i: usize = 0;
    while i < ts.len()
        invariant
            i <= ts@.len(),
            out@.len() == i,
            forall|j: int| 0 <= j < i ==> sty(#[trigger] out@[j]) == sty(ts@[j]),
        decreases ts@.len() - i,
    {
        assert(decreases_to!(ts => ts@[i as int]));
        out.push(copy_ty(&ts[i]));
        i = i + 1;
    }
    assert(stys(out@) =~= stys(ts@));
    out
}

fn copy_bytes(b: &Vec<u8>) -> (r: Vec<u8>)
    ensures
        r@ == b@,
{
    let mut out: Vec<u8> = Vec::new();
    let mut i: usize = 0;
    while i < b.len()
        invariant
            i <= b@.len(),
            out@ == b@.take(i as int),
        decreases b@.len() - i,
    {
        out.push(b[i]);
        assert(b@.take(i as int + 1) =~= b@.take(i as int).push(b@[i as int]));
        i = i + 1;
    }
    assert(b@.take(b@.len() as int) =~= b@);
    out
}

pub fn copy_lit(l: &TLiteral) -> (r: TLiteral)
    ensures
        lit_v(r) == lit_v(*l),
{
    match l {
        TLiteral::Integer(n) => TLiteral::Integer(*n),
        TLiteral::BigInteger(s) => TLiteral::BigInteger(s.clone()),
        TLiteral::Number(s) => TLiteral::Number(s.clone()),
        TLiteral::Str(b) => TLiteral::Str(copy_bytes(b)),
        TLiteral::Bool(b) => TLiteral::Bool(*b),
        TLiteral::Unit => TLiteral::Unit,
    }
}

pub fn copy_pat(p: &TPattern) -> (r: TPattern)
    ensures
        spat(r) == spat(*p),
    decreases p,
{
    match p {
        TPattern::Var(n, t) => TPattern::Var(n.clone(), copy_ty(t)),
        TPattern::Wildcard => TPattern::Wildcard,
        TPattern::LitPat(l) => TPattern::LitPat(copy_lit(l)),
        TPattern::Constructor { name, args } => {
            let v = copy_pats(args);
            let r = TPattern::Constructor { name: name.clone(), args: v };
            assert(spat(r) == (SPat::Constructor { name: name@, args: spats(v@) }));
            r
        },
        TPattern::Paren(b) => TPattern::Paren(Box::new(copy_pat(b))),
        TPattern::Tuple(ps) => {
            let v = copy_pats(ps);
            let r = TPattern::Tuple(v);
            assert(spat(r) == SPat::Tuple(spats(v@)));
            r
        },
    }
}

pub fn copy_pats(ps: &Vec<TPattern>) -> (r: Vec<TPattern>)
    ensures
        spats(r@) == spats(ps@),
    decreases ps,
{
    let mut out: Vec<TPattern> = Vec::new();
    let mut i: usize = 0;
    while i < ps.len()
        invariant
            i <= ps@.len(),
            out@.len() == i,
            forall|j: int| 0 <= j < i ==> spat(#[trigger] out@[j]) == spat(ps@[j]),
        decreases ps@.len() - i,
    {
        assert(decreases_to!(ps => ps@[i as int]));
        out.push(copy_pat(&ps[i]));
        i = i + 1;
    }
    assert(spats(out@) =~= spats(ps@));
    out
}

fn copy_pairs(ms: &Vec<(String, String)>) -> (r: Vec<(String, String)>)
    ensures
        pairs_model(r@) == pairs_model(ms@),
{
    let mut out: Vec<(String, String)> = Vec::new();
    let mut i: usize = 0;
    while i < ms.len()
        invariant
            i <= ms@.len(),
            out@.len() == i,
            forall|j: int| 0 <= j < i ==> (#[trigger] out@[j]).0@ == ms@[j].0@ && out@[j].1@ == ms@[j].1@,
        decreases ms@.len() - i,
    {
        out.push((ms[i].0.clone(), ms[i].1.clone()));
        i = i + 1;
    }
    assert(pairs_model(out@) =~= pairs_model(ms@));
    out
}

pub fn copy_spec(k: &SpecKind) -> (r: SpecKind)
    ensures
        sspec(r) == sspec(*k),
{
    match k {
        SpecKind::Dict { methods } => SpecKind::Dict { methods: copy_pairs(methods) },
        SpecKind::DictCtor { methods } => SpecKind::DictCtor { methods: copy_pairs(methods) },
        SpecKind::ListEq(s) => SpecKind::ListEq(s.clone()),
        SpecKind::MaybeEq(s) => SpecKind::MaybeEq(s.clone()),
        SpecKind::ShowList(s) => SpecKind::ShowList(s.clone()),
        SpecKind::ShowMaybe(s) => SpecKind::ShowMaybe(s.clone()),
        SpecKind::TupleEq(ns) => SpecKind::TupleEq(copy_strings(ns)),
        SpecKind::Host(s) => SpecKind::Host(s.clone()),
        SpecKind::Io(s) => SpecKind::Io(s.clone()),
        SpecKind::IoTup { host } => SpecKind::IoTup { host: host.clone() },
        SpecKind::TupRet { host } => SpecKind::TupRet { host: host.clone() },
        SpecKind::Iter(s) => SpecKind::Iter(s.clone()),
        SpecKind::Try(s) => SpecKind::Try(s.clone()),
        SpecKind::Pcall(s) => SpecKind::Pcall(s.clone()),
        SpecKind::IoPcall(s) => SpecKind::IoPcall(s.clone()),
        SpecKind::Const(s) => SpecKind::Const(s.clone()),
        SpecKind::TupGet(i) => SpecKind::TupGet(*i),
    }
}

pub fn copy_params(ps: &Vec<(String, Ty)>) -> (r: Vec<(String, Ty)>)
    ensures
        sparams(r@) == sparams(ps@),
{
    let mut out: Vec<(String, Ty)> = Vec::new();
    let mut i: usize = 0;
    while i < ps.len()
        invariant
            i <= ps@.len(),
            out@.len() == i,
            forall|j: int| 0 <= j < i ==> (#[trigger] out@[j]).0@ == ps@[j].0@ && sty(out@[j].1) == sty(ps@[j].1),
        decreases ps@.len() - i,
    {
        out.push((ps[i].0.clone(), copy_ty(&ps[i].1)));
        i = i + 1;
    }
    assert(sparams(out@) =~= sparams(ps@));
    out
}

pub fn copy_expr(e: &TExpr) -> (r: TExpr)
    ensures
        sexpr(r) == sexpr(*e),
    decreases e,
{
    let kind = match &e.kind {
        TExprKind::Var(s) => TExprKind::Var(s.clone()),
        TExprKind::Con(s) => TExprKind::Con(s.clone()),
        TExprKind::Lit(l) => TExprKind::Lit(copy_lit(l)),
        TExprKind::OpFunc(s) => TExprKind::OpFunc(s.clone()),
        TExprKind::App(f, a) => TExprKind::App(Box::new(copy_expr(f)), Box::new(copy_expr(a))),
        TExprKind::InfixApp { op, lhs, rhs } => TExprKind::InfixApp {
            op: op.clone(),
            lhs: Box::new(copy_expr(lhs)),
            rhs: Box::new(copy_expr(rhs)),
        },
        TExprKind::Lambda { params, body } => TExprKind::Lambda { params: copy_params(params), body: Box::new(copy_expr(body)) },
        TExprKind::Negate(x) => TExprKind::Negate(Box::new(copy_expr(x))),
        TExprKind::Paren(x) => TExprKind::Paren(Box::new(copy_expr(x))),
        TExprKind::If { cond, then_branch, else_branch } => TExprKind::If {
            cond: Box::new(copy_expr(cond)),
            then_branch: Box::new(copy_expr(then_branch)),
            else_branch: Box::new(copy_expr(else_branch)),
        },
        TExprKind::Case { scrutinee, branches } => TExprKind::Case {
            scrutinee: Box::new(copy_expr(scrutinee)),
            branches: copy_branches(branches),
        },
        TExprKind::Let { binds, body } => TExprKind::Let { binds: copy_defs(binds), body: Box::new(copy_expr(body)) },
        TExprKind::Tuple(es) => TExprKind::Tuple(copy_exprs(es)),
        TExprKind::SpecCall { original, specialized, args } => TExprKind::SpecCall {
            original: original.clone(),
            specialized: copy_spec(specialized),
            args: copy_exprs(args),
        },
        TExprKind::DictCall { func_name, dict_args, value_args } => TExprKind::DictCall {
            func_name: func_name.clone(),
            dict_args: copy_exprs(dict_args),
            value_args: copy_exprs(value_args),
        },
        TExprKind::DictMethod { dict, method_name } => TExprKind::DictMethod {
            dict: Box::new(copy_expr(dict)),
            method_name: method_name.clone(),
        },
        TExprKind::DictAccess { class_name, method_name } => TExprKind::DictAccess {
            class_name: class_name.clone(),
            method_name: method_name.clone(),
        },
        TExprKind::RecordUpdate { record, updates } => TExprKind::RecordUpdate {
            record: Box::new(copy_expr(record)),
            updates: copy_updates(updates),
        },
        TExprKind::OutgoingCallback { callee, arity } => TExprKind::OutgoingCallback {
            callee: Box::new(copy_expr(callee)),
            arity: *arity,
        },
        TExprKind::FfiMaybeArg { value } => TExprKind::FfiMaybeArg { value: Box::new(copy_expr(value)) },
    };
    let r = TExpr { kind, ty: copy_ty(&e.ty) };
    assert(skind(r.kind) == skind(e.kind));
    r
}

pub fn copy_exprs(es: &Vec<TExpr>) -> (r: Vec<TExpr>)
    ensures
        sexprs(r@) == sexprs(es@),
    decreases es,
{
    let mut out: Vec<TExpr> = Vec::new();
    let mut i: usize = 0;
    while i < es.len()
        invariant
            i <= es@.len(),
            out@.len() == i,
            forall|j: int| 0 <= j < i ==> sexpr(#[trigger] out@[j]) == sexpr(es@[j]),
        decreases es@.len() - i,
    {
        assert(decreases_to!(es => es@[i as int]));
        out.push(copy_expr(&es[i]));
        i = i + 1;
    }
    assert(sexprs(out@) =~= sexprs(es@));
    out
}

pub fn copy_guards(gs: &Vec<TGuard>) -> (r: Vec<TGuard>)
    ensures
        sguards(r@) == sguards(gs@),
    decreases gs,
{
    let mut out: Vec<TGuard> = Vec::new();
    let mut i: usize = 0;
    while i < gs.len()
        invariant
            i <= gs@.len(),
            out@.len() == i,
            forall|j: int| 0 <= j < i ==> sguard(#[trigger] out@[j]) == sguard(gs@[j]),
        decreases gs@.len() - i,
    {
        assert(decreases_to!(gs => gs@[i as int]));
        out.push(TGuard { condition: copy_expr(&gs[i].condition), body: copy_expr(&gs[i].body) });
        i = i + 1;
    }
    assert(sguards(out@) =~= sguards(gs@));
    out
}

pub fn copy_branches(bs: &Vec<TCaseBranch>) -> (r: Vec<TCaseBranch>)
    ensures
        sbranches(r@) == sbranches(bs@),
    decreases bs,
{
    let mut out: Vec<TCaseBranch> = Vec::new();
    let mut i: usize = 0;
    while i < bs.len()
        invariant
            i <= bs@.len(),
            out@.len() == i,
            forall|j: int| 0 <= j < i ==> sbranch(#[trigger] out@[j]) == sbranch(bs@[j]),
        decreases bs@.len() - i,
    {
        assert(decreases_to!(bs => bs@[i as int]));
        let b = &bs[i];
        out.push(TCaseBranch { pattern: copy_pat(&b.pattern), guards: copy_guards(&b.guards), body: copy_expr(&b.body) });
        i = i + 1;
    }
    assert(sbranches(out@) =~= sbranches(bs@));
    out
}

pub fn copy_defs(ds: &Vec<TLocalDef>) -> (r: Vec<TLocalDef>)
    ensures
        sdefs(r@) == sdefs(ds@),
    decreases ds,
{
    let mut out: Vec<TLocalDef> = Vec::new();
    let mut i: usize = 0;
    while i < ds.len()
        invariant
            i <= ds@.len(),
            out@.len() == i,
            forall|j: int| 0 <= j < i ==> sdef(#[trigger] out@[j]) == sdef(ds@[j]),
        decreases ds@.len() - i,
    {
        assert(decreases_to!(ds => ds@[i as int]));
        let d = &ds[i];
        out.push(TLocalDef { name: d.name.clone(), patterns: copy_pats(&d.patterns), body: copy_expr(&d.body) });
        i = i + 1;
    }
    assert(sdefs(out@) =~= sdefs(ds@));
    out
}

pub fn copy_updates(us: &Vec<(String, usize, TExpr)>) -> (r: Vec<(String, usize, TExpr)>)
    ensures
        supdates(r@) == supdates(us@),
    decreases us,
{
    let mut out: Vec<(String, usize, TExpr)> = Vec::new();
    let mut i: usize = 0;
    while i < us.len()
        invariant
            i <= us@.len(),
            out@.len() == i,
            forall|j: int| 0 <= j < i ==> (#[trigger] out@[j]).0@ == us@[j].0@ && out@[j].1 == us@[j].1 && sexpr(out@[j].2)
                == sexpr(us@[j].2),
        decreases us@.len() - i,
    {
        assert(decreases_to!(us => us@[i as int]));
        out.push((us[i].0.clone(), us[i].1, copy_expr(&us[i].2)));
        i = i + 1;
    }
    assert(supdates(out@) =~= supdates(us@));
    out
}

} // verus!
