//! The surface syntax tree the desugaring pass rewrites, and its model.

use vstd::prelude::*;

verus! {

/// A literal.
pub enum Literal {
    Integer(i64),
    /// A floating-point literal, as its source text.
    Number(String),
    /// A string literal's bytes.
    Str(Vec<u8>),
    Bool(bool),
    Unit,
}

/// A pattern.
pub enum Pattern {
    Var(String),
    Wildcard,
    LitPat(Literal),
    Constructor { name: String, args: Vec<Pattern> },
    Paren(Box<Pattern>),
    Tuple(Vec<Pattern>),
    /// `name@pattern`.
    As(String, Box<Pattern>),
}

/// A source position.
pub struct Span {
    pub line: u32,
    pub col: u32,
}

/// An expression.
pub enum Expr {
    Var(String),
    Con(String),
    Lit(Literal),
    App(Box<Expr>, Box<Expr>),
    InfixApp { op: String, lhs: Box<Expr>, rhs: Box<Expr> },
    Lambda { params: Vec<String>, body: Box<Expr> },
    Let { binds: Vec<LocalDef>, body: Box<Expr> },
    If { cond: Box<Expr>, then_branch: Box<Expr>, else_branch: Box<Expr> },
    Case { scrutinee: Box<Expr>, branches: Vec<CaseBranch> },
    Do(Vec<DoStmt>),
    Paren(Box<Expr>),
    Tuple(Vec<Expr>),
    List(Vec<Expr>),
    Negate(Box<Expr>),
}

/// A `let`/`where` binding: a value or one equation of a local function.
pub struct LocalDef {
    pub name: String,
    pub patterns: Vec<Pattern>,
    pub body: Expr,
}

/// `| condition = body`.
pub struct Guard {
    pub condition: Expr,
    pub body: Expr,
}

/// One alternative of a `case`.
pub struct CaseBranch {
    pub pattern: Pattern,
    pub guards: Vec<Guard>,
    pub body: Option<Expr>,
}

/// A statement of a `do` block.
pub enum DoStmt {
    Expr(Expr),
    Bind { name: String, expr: Expr },
    DoLet { binds: Vec<LocalDef> },
    PatternBind { pattern: Pattern, expr: Expr, span: Span },
}

/// One equation of a top-level function.
pub struct Clause {
    pub patterns: Vec<Pattern>,
    pub guards: Vec<Guard>,
    pub body: Option<Expr>,
    pub where_binds: Vec<LocalDef>,
}

/// An instance method.
pub struct Method {
    pub name: String,
    pub clauses: Vec<Clause>,
}

/// A class method, with its default equations if it has them.
pub struct ClassMethod {
    pub name: String,
    pub default_clauses: Option<Vec<Clause>>,
}

/// A top-level declaration.
pub enum Decl {
    FunDef { name: String, clauses: Vec<Clause> },
    InstanceDecl { class_name: String, methods: Vec<Method> },
    ClassDecl { name: String, methods: Vec<ClassMethod> },
    TypeSig { name: String },
    DataDef { name: String },
    NewtypeDef { name: String },
    ExportSig { name: String },
    TypeFamily { name: String },
    Import { module: String },
    TypeAlias { name: String },
    FixityDecl { op: String },
}

/// A module.
pub struct Module {
    pub decls: Vec<Decl>,
}

// ---------------------------------------------------------------------
// The model
// ---------------------------------------------------------------------

pub enum MLit {
    Integer(i64),
    Number(Seq<char>),
    Str(Seq<u8>),
    Bool(bool),
    Unit,
}

pub enum MExpr {
    Var(Seq<char>),
    Con(Seq<char>),
    Lit(MLit),
    App(Box<MExpr>, Box<MExpr>),
    InfixApp(Seq<char>, Box<MExpr>, Box<MExpr>),
    Lambda(Seq<Seq<char>>, Box<MExpr>),
    Let(Seq<MDef>, Box<MExpr>),
    If(Box<MExpr>, Box<MExpr>, Box<MExpr>),
    Case(Box<MExpr>, Seq<MBranch>),
    Do(Seq<MDo>),
    Paren(Box<MExpr>),
    Tuple(Seq<MExpr>),
    List(Seq<MExpr>),
    Negate(Box<MExpr>),
}

/// A binding: name, patterns (as written) and body.
pub struct MDef {
    pub name: Seq<char>,
    pub patterns: Seq<Pattern>,
    pub body: MExpr,
}

/// A case alternative: pattern (as written), guards and body.
pub struct MBranch {
    pub pattern: Pattern,
    pub guards: Seq<(MExpr, MExpr)>,
    pub body: Option<MExpr>,
}

pub enum MDo {
    Expr(MExpr),
    Bind(Seq<char>, MExpr),
    DoLet(Seq<MDef>),
    PatternBind(Pattern, MExpr, u32, u32),
}

pub open spec fn lit_m(l: Literal) -> MLit {
    match l {
        Literal::Integer(n) => MLit::Integer(n),
        Literal::Number(s) => MLit::Number(s@),
        Literal::Str(b) => MLit::Str(b@),
        Literal::Bool(b) => MLit::Bool(b),
        Literal::Unit => MLit::Unit,
    }
}

pub open spec fn names_m(s: Seq<String>) -> Seq<Seq<char>> {
    Seq::new(s.len(), |i: int| s[i]@)
}

pub open spec fn expr_m(e: Expr) -> MExpr
    decreases e,
{
    match e {
        Expr::Var(s) => MExpr::Var(s@),
        Expr::Con(s) => MExpr::Con(s@),
        Expr::Lit(l) => MExpr::Lit(lit_m(l)),
        Expr::App(f, a) => MExpr::App(Box::new(expr_m(*f)), Box::new(expr_m(*a))),
        Expr::InfixApp { op, lhs, rhs } => MExpr::InfixApp(op@, Box::new(expr_m(*lhs)), Box::new(expr_m(*rhs))),
        Expr::Lambda { params, body } => MExpr::Lambda(names_m(params@), Box::new(expr_m(*body))),
        Expr::Let { binds, body } => MExpr::Let(defs_m(binds@), Box::new(expr_m(*body))),
        Expr::If { cond, then_branch, else_branch } => MExpr::If(Box::new(expr_m(*cond)), Box::new(expr_m(*then_branch)),
            Box::new(expr_m(*else_branch))),
        Expr::Case { scrutinee, branches } => MExpr::Case(Box::new(expr_m(*scrutinee)), branches_m(branches@)),
        Expr::Do(stmts) => MExpr::Do(dos_m(stmts@)),
        Expr::Paren(b) => MExpr::Paren(Box::new(expr_m(*b))),
        Expr::Tuple(es) => MExpr::Tuple(exprs_m(es@)),
        Expr::List(es) => MExpr::List(exprs_m(es@)),
        Expr::Negate(b) => MExpr::Negate(Box::new(expr_m(*b))),
    }
}

pub open spec fn exprs_m(s: Seq<Expr>) -> Seq<MExpr>
    decreases s,
{
    Seq::new(s.len(), |i: int| if 0 <= i < s.len() { expr_m(s[i]) } else { MExpr::Con(Seq::empty()) })
}

pub open spec fn def_m(d: LocalDef) -> MDef
    decreases d,
{
    MDef { name: d.name@, patterns: d.patterns@, body: expr_m(d.body) }
}

pub open spec fn defs_m(s: Seq<LocalDef>) -> Seq<MDef>
    decreases s,
{
    Seq::new(s.len(), |i: int| if 0 <= i < s.len() { def_m(s[i]) } else { MDef { name: Seq::empty(), patterns: Seq::empty(), body: MExpr::Con(Seq::empty()) } })
}

pub open spec fn guard_m(g: Guard) -> (MExpr, MExpr)
    decreases g,
{
    (expr_m(g.condition), expr_m(g.body))
}

pub open spec fn guards_m(s: Seq<Guard>) -> Seq<(MExpr, MExpr)>
    decreases s,
{
    Seq::new(s.len(), |i: int| if 0 <= i < s.len() { guard_m(s[i]) } else { (MExpr::Con(Seq::empty()), MExpr::Con(Seq::empty())) })
}

pub open spec fn opt_m(o: Option<Expr>) -> Option<MExpr>
    decreases o,
{
    match o {
        Some(e) => Some(expr_m(e)),
        None => None,
    }
}

pub open spec fn branch_m(b: CaseBranch) -> MBranch
    decreases b,
{
    MBranch { pattern: b.pattern, guards: guards_m(b.guards@), body: opt_m(b.body) }
}

pub open spec fn branches_m(s: Seq<CaseBranch>) -> Seq<MBranch>
    decreases s,
{
    Seq::new(s.len(), |i: int| if 0 <= i < s.len() { branch_m(s[i]) } else { MBranch { pattern: Pattern::Wildcard, guards: Seq::empty(), body: None } })
}

pub open spec fn do_m(s: DoStmt) -> MDo
    decreases s,
{
    match s {
        DoStmt::Expr(e) => MDo::Expr(expr_m(e)),
        DoStmt::Bind { name, expr } => MDo::Bind(name@, expr_m(expr)),
        DoStmt::DoLet { binds } => MDo::DoLet(defs_m(binds@)),
        DoStmt::PatternBind { pattern, expr, span } => MDo::PatternBind(pattern, expr_m(expr), span.line, span.col),
    }
}

pub open spec fn dos_m(s: Seq<DoStmt>) -> Seq<MDo>
    decreases s,
{
    Seq::new(s.len(), |i: int| if 0 <= i < s.len() { do_m(s[i]) } else { MDo::Expr(MExpr::Con(Seq::empty())) })
}

} // verus!
