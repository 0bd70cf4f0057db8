//! The typed intermediate representation the middle passes (folding,
//! dead-code elimination, demand analysis) read and rewrite.

use vstd::prelude::*;
use crate::types::Ty;

verus! {

/// A literal.
pub enum TLiteral {
    Integer(i64),
    /// An integer literal beyond the `i64` range, as its decimal text.
    BigInteger(String),
    /// A floating-point literal, as its source text.
    Number(String),
    /// A string literal's bytes.
    Str(Vec<u8>),
    Bool(bool),
    Unit,
}

/// A pattern.
pub enum TPattern {
    /// A variable binding, with its type.
    Var(String, Ty),
    Wildcard,
    LitPat(TLiteral),
    /// A constructor pattern `C p1 … pn`.
    Constructor { name: String, args: Vec<TPattern> },
    Paren(Box<TPattern>),
    Tuple(Vec<TPattern>),
}

/// How a specialized call is emitted. The variants that thread mata-ll
/// functions name them; the host-side kinds carry Lua host names only.
pub enum SpecKind {
    /// A dictionary built from (method, implementation) pairs.
    Dict { methods: Vec<(String, String)> },
    /// A dictionary constructor over (method, implementation) pairs.
    DictCtor { methods: Vec<(String, String)> },
    ListEq(String),
    MaybeEq(String),
    ShowList(String),
    ShowMaybe(String),
    TupleEq(Vec<String>),
    Host(String),
    Io(String),
    IoTup { host: String },
    TupRet { host: String },
    Iter(String),
    Try(String),
    Pcall(String),
    IoPcall(String),
    Const(String),
    TupGet(usize),
}

/// A typed expression.
pub struct TExpr {
    pub kind: TExprKind,
    pub ty: Ty,
}

/// The expression forms.
pub enum TExprKind {
    Var(String),
    Con(String),
    Lit(TLiteral),
    /// An operator used as a function: `(+)`.
    OpFunc(String),
    App(Box<TExpr>, Box<TExpr>),
    InfixApp { op: String, lhs: Box<TExpr>, rhs: Box<TExpr> },
    Lambda { params: Vec<(String, Ty)>, body: Box<TExpr> },
    Negate(Box<TExpr>),
    Paren(Box<TExpr>),
    If { cond: Box<TExpr>, then_branch: Box<TExpr>, else_branch: Box<TExpr> },
    Case { scrutinee: Box<TExpr>, branches: Vec<TCaseBranch> },
    Let { binds: Vec<TLocalDef>, body: Box<TExpr> },
    Tuple(Vec<TExpr>),
    /// A call of a specialization of `original`.
    SpecCall { original: String, specialized: SpecKind, args: Vec<TExpr> },
    /// A typeclass method call with explicit dictionary arguments.
    DictCall { func_name: String, dict_args: Vec<TExpr>, value_args: Vec<TExpr> },
    /// A method selected from a dictionary value.
    DictMethod { dict: Box<TExpr>, method_name: String },
    /// A method of a statically known instance.
    DictAccess { class_name: String, method_name: String },
    /// `record { field = e, … }`: (field name, field position, value).
    RecordUpdate { record: Box<TExpr>, updates: Vec<(String, usize, TExpr)> },
    /// A mata-ll function handed to the Lua host as a callback.
    OutgoingCallback { callee: Box<TExpr>, arity: usize },
    /// An optional argument of a foreign call.
    FfiMaybeArg { value: Box<TExpr> },
}

/// One alternative of a `case`.
pub struct TCaseBranch {
    pub pattern: TPattern,
    pub guards: Vec<TGuard>,
    pub body: TExpr,
}

/// `| condition = body`.
pub struct TGuard {
    pub condition: TExpr,
    pub body: TExpr,
}

/// A `let`/`where` binding: a value (`patterns` empty) or one equation of
/// a local function.
pub struct TLocalDef {
    pub name: String,
    pub patterns: Vec<TPattern>,
    pub body: TExpr,
}

/// One equation of a top-level function.
pub struct TClause {
    pub patterns: Vec<TPattern>,
    pub guards: Vec<TGuard>,
    pub body: TExpr,
    pub where_binds: Vec<TLocalDef>,
}

/// A top-level function.
pub struct TFunction {
    pub name: String,
    pub ty: Ty,
    pub dict_params: Vec<String>,
    pub clauses: Vec<TClause>,
    /// A compiler-derived `Eq`/`Ord` method: strict in every argument by
    /// construction (it inspects both constructor tags before any clause
    /// can be selected).
    pub derived_strict: bool,
}

/// A data constructor.
pub struct TConstructor {
    pub name: String,
    pub fields: Vec<Ty>,
}

/// A `data` definition.
pub struct TDataDef {
    pub name: String,
    pub constructors: Vec<TConstructor>,
}

/// A typed module.
pub struct TModule {
    pub functions: Vec<TFunction>,
    pub instance_fns: Vec<TFunction>,
    pub data_defs: Vec<TDataDef>,
    /// Definitions none of whose constructors live code uses: their
    /// metadata is still registered, no constructor functions are emitted.
    pub dropped_data_defs: Vec<TDataDef>,
    pub exports: Vec<String>,
    pub has_main: bool,
    /// The passes run so far, in order.
    pub passes_run: Vec<String>,
}

} // verus!
