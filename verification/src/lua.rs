//! The Lua AST the code generator emits, and its printer.
//!
//! Every executable node has a mathematical model (`LExpr`, `LStmt`, ...)
//! obtained through `@`, and the printer's output is specified over those
//! models by `expr_text`, `stmt_text`, `line_text` and `block_text`: the
//! layout rules (4-space indents, `; `-joined inline bodies, explicit
//! parens only where a `Paren` node sits, the `;` pin before a paren-led
//! statement) are stated there once and every rendering function is proved
//! to produce exactly that text.

use vstd::prelude::*;
use crate::text::{views, repeat, joined, decimal, push_char, push_str, push_repeat, push_joined, decimal_string};

verus! {

broadcast use vstd::string::group_string_axioms;

// ---------------------------------------------------------------------
// Executable AST
// ---------------------------------------------------------------------

/// A Lua expression as this code generator shapes it.
pub enum Expr {
    /// A reference printed verbatim (`f`, `__mll_fn[3]`, `math.pi`).
    Name(String),
    /// A rendered literal token.
    Lit(String),
    /// Preformatted expression text.
    Raw(String),
    /// `(e)` — explicit grouping.
    Paren(Box<Expr>),
    /// `f(a, b)`.
    Call(Box<Expr>, Vec<Expr>),
    /// `recv:m(a, b)`.
    Method(Box<Expr>, String, Vec<Expr>),
    /// `base<suffix>` with a rendered suffix (`[3]`, `.field`).
    Index(Box<Expr>, String),
    /// `a <op> b`.
    Binop(String, Box<Expr>, Box<Expr>),
    /// `-e`.
    Neg(Box<Expr>),
    /// `{a, b}`.
    Table(Vec<Item>),
    /// `{ k = v }` — padded braces.
    TableSpaced(Vec<Item>),
    /// `function(p1, p2) … end`.
    Func(Vec<String>, FuncBody),
}

/// One table-constructor item.
pub enum Item {
    Pos(Expr),
    /// Keyed entry; the key text includes its ` = ` suffix.
    KV(String, Expr),
}

/// Function-literal layout.
pub enum FuncBody {
    /// `function(p) s1; s2 end` on one line.
    Inline(Vec<Stmt>),
    /// Body on its own lines at indent+1.
    Block(Block),
}

/// A statement sequence printed one statement per line.
pub struct Block(pub Vec<Stmt>);

/// What a named function definition binds or stores to.
pub enum FnTarget {
    /// `local function <name>(…)`.
    LocalFn(String),
    /// `__mll_fn[<slot>] = function(…)`.
    Slot(u32),
    /// `<lvalue> = function(…)`.
    Assigned(String),
    /// `__mll_tkf[<slot>] = function(…)`.
    ThunkSlot(u32),
}

/// A Lua statement as this code generator shapes it.
pub enum Stmt {
    /// One preformatted line.
    Raw(String),
    /// `local a, b` / `local x = e`.
    Local(Vec<String>, Option<Expr>),
    /// `lhs = e`.
    Assign(String, Expr),
    /// `return e`.
    Return(Expr),
    /// An expression in statement position.
    Expr(Expr),
    /// `if c then … elseif c2 then … else … end`.
    If { cond: Expr, then_b: Block, elseifs: Vec<(Expr, Block)>, else_b: Option<Block> },
    /// `if c then lhs = t else lhs = e end` on one line.
    AssignIf { lhs: String, cond: Expr, then_e: Expr, else_e: Expr },
    /// `do … end`.
    Do(Block),
    /// `while true do … end` (left only through return or error).
    WhileTrue(Block),
    /// `a, b = e1, e2` — simultaneous assignment.
    MultiAssign(Vec<String>, Vec<Expr>),
    /// Bare `return`.
    ReturnNone,
    /// `goto name`.
    Goto(String),
    /// `::name::`.
    Label(String),
    /// A named function definition.
    Function { target: FnTarget, params: Vec<String>, body: Block },
    /// `return { key = value, … }` one entry per line.
    ReturnTable(Vec<(String, Expr)>),
}

// ---------------------------------------------------------------------
// Models
// ---------------------------------------------------------------------

pub enum LExpr {
    Name(Seq<char>),
    Lit(Seq<char>),
    Raw(Seq<char>),
    Paren(Box<LExpr>),
    Call(Box<LExpr>, Seq<LExpr>),
    Method(Box<LExpr>, Seq<char>, Seq<LExpr>),
    Index(Box<LExpr>, Seq<char>),
    Binop(Seq<char>, Box<LExpr>, Box<LExpr>),
    Neg(Box<LExpr>),
    Table(Seq<LItem>),
    TableSpaced(Seq<LItem>),
    Func(Seq<Seq<char>>, LBody),
}

pub enum LItem {
    Pos(LExpr),
    KV(Seq<char>, LExpr),
}

pub enum LBody {
    Inline(Seq<LStmt>),
    Block(Seq<LStmt>),
}

pub enum LTarget {
    LocalFn(Seq<char>),
    Slot(u32),
    Assigned(Seq<char>),
    ThunkSlot(u32),
}

pub enum LStmt {
    Raw(Seq<char>),
    Local(Seq<Seq<char>>, Option<LExpr>),
    Assign(Seq<char>, LExpr),
    Return(LExpr),
    Expr(LExpr),
    If(LExpr, Seq<LStmt>, Seq<(LExpr, Seq<LStmt>)>, Option<Seq<LStmt>>),
    AssignIf(Seq<char>, LExpr, LExpr, LExpr),
    Do(Seq<LStmt>),
    WhileTrue(Seq<LStmt>),
    MultiAssign(Seq<Seq<char>>, Seq<LExpr>),
    ReturnNone,
    Goto(Seq<char>),
    Label(Seq<char>),
    Function(LTarget, Seq<Seq<char>>, Seq<LStmt>),
    ReturnTable(Seq<(Seq<char>, LExpr)>),
}

pub open spec fn strs_model(v: Seq<String>) -> Seq<Seq<char>> {
    views(v)
}

pub open spec fn expr_model(e: Expr) -> LExpr
    decreases e,
{
    match e {
        Expr::Name(s) => LExpr::Name(s@),
        Expr::Lit(s) => LExpr::Lit(s@),
        Expr::Raw(s) => LExpr::Raw(s@),
        Expr::Paren(b) => LExpr::Paren(Box::new(expr_model(*b))),
        Expr::Call(f, args) => LExpr::Call(Box::new(expr_model(*f)), exprs_model(args@)),
        Expr::Method(r, m, args) => LExpr::Method(Box::new(expr_model(*r)), m@, exprs_model(args@)),
        Expr::Index(b, s) => LExpr::Index(Box::new(expr_model(*b)), s@),
        Expr::Binop(op, l, r) => LExpr::Binop(op@, Box::new(expr_model(*l)), Box::new(expr_model(*r))),
        Expr::Neg(b) => LExpr::Neg(Box::new(expr_model(*b))),
        Expr::Table(items) => LExpr::Table(items_model(items@)),
        Expr::TableSpaced(items) => LExpr::TableSpaced(items_model(items@)),
        Expr::Func(ps, body) => LExpr::Func(strs_model(ps@), body_model(body)),
    }
}

pub open spec fn exprs_model(s: Seq<Expr>) -> Seq<LExpr>
    decreases s,
{
    Seq::new(s.len(), |i: int| if 0 <= i < s.len() { expr_model(s[i]) } else { LExpr::Name(Seq::empty()) })
}

pub open spec fn item_model(it: Item) -> LItem
    decreases it,
{
    match it {
        Item::Pos(e) => LItem::Pos(expr_model(e)),
        Item::KV(k, e) => LItem::KV(k@, expr_model(e)),
    }
}

pub open spec fn items_model(s: Seq<Item>) -> Seq<LItem>
    decreases s,
{
    Seq::new(s.len(), |i: int| if 0 <= i < s.len() { item_model(s[i]) } else { LItem::Pos(LExpr::Name(Seq::empty())) })
}

pub open spec fn body_model(b: FuncBody) -> LBody
    decreases b,
{
    match b {
        FuncBody::Inline(ss) => LBody::Inline(stmts_model(ss@)),
        FuncBody::Block(Block(ss)) => LBody::Block(stmts_model(ss@)),
    }
}

pub open spec fn target_model(t: FnTarget) -> LTarget {
    match t {
        FnTarget::LocalFn(n) => LTarget::LocalFn(n@),
        FnTarget::Slot(i) => LTarget::Slot(i),
        FnTarget::Assigned(n) => LTarget::Assigned(n@),
        FnTarget::ThunkSlot(i) => LTarget::ThunkSlot(i),
    }
}

pub open spec fn stmt_model(s: Stmt) -> LStmt
    decreases s,
{
    match s {
        Stmt::Raw(t) => LStmt::Raw(t@),
        Stmt::Local(ns, init) => LStmt::Local(strs_model(ns@), match init {
            Some(e) => Some(expr_model(e)),
            None => None,
        }),
        Stmt::Assign(l, e) => LStmt::Assign(l@, expr_model(e)),
        Stmt::Return(e) => LStmt::Return(expr_model(e)),
        Stmt::Expr(e) => LStmt::Expr(expr_model(e)),
        Stmt::If { cond, then_b, elseifs, else_b } => LStmt::If(
            expr_model(cond),
            stmts_model(then_b.0@),
            arms_model(elseifs@),
            match else_b {
                Some(b) => Some(stmts_model(b.0@)),
                None => None,
            },
        ),
        Stmt::AssignIf { lhs, cond, then_e, else_e } => LStmt::AssignIf(
            lhs@,
            expr_model(cond),
            expr_model(then_e),
            expr_model(else_e),
        ),
        Stmt::Do(b) => LStmt::Do(stmts_model(b.0@)),
        Stmt::WhileTrue(b) => LStmt::WhileTrue(stmts_model(b.0@)),
        Stmt::MultiAssign(ls, es) => LStmt::MultiAssign(strs_model(ls@), exprs_model(es@)),
        Stmt::ReturnNone => LStmt::ReturnNone,
        Stmt::Goto(l) => LStmt::Goto(l@),
        Stmt::Label(l) => LStmt::Label(l@),
        Stmt::Function { target, params, body } => LStmt::Function(
            target_model(target),
            strs_model(params@),
            stmts_model(body.0@),
        ),
        Stmt::ReturnTable(es) => LStmt::ReturnTable(entries_model(es@)),
    }
}

pub open spec fn stmts_model(s: Seq<Stmt>) -> Seq<LStmt>
    decreases s,
{
    Seq::new(s.len(), |i: int| if 0 <= i < s.len() { stmt_model(s[i]) } else { LStmt::ReturnNone })
}

pub open spec fn arms_model(s: Seq<(Expr, Block)>) -> Seq<(LExpr, Seq<LStmt>)>
    decreases s,
{
    Seq::new(s.len(), |i: int| if 0 <= i < s.len() {
        (expr_model(s[i].0), stmts_model(s[i].1.0@))
    } else {
        (LExpr::Name(Seq::empty()), Seq::empty())
    })
}

pub open spec fn entries_model(s: Seq<(String, Expr)>) -> Seq<(Seq<char>, LExpr)>
    decreases s,
{
    Seq::new(s.len(), |i: int| if 0 <= i < s.len() {
        (s[i].0@, expr_model(s[i].1))
    } else {
        (Seq::empty(), LExpr::Name(Seq::empty()))
    })
}

impl View for Expr {
    type V = LExpr;

    open spec fn view(&self) -> LExpr {
        expr_model(*self)
    }
}

impl View for Stmt {
    type V = LStmt;

    open spec fn view(&self) -> LStmt {
        stmt_model(*self)
    }
}

impl View for Item {
    type V = LItem;

    open spec fn view(&self) -> LItem {
        item_model(*self)
    }
}

impl View for FuncBody {
    type V = LBody;

    open spec fn view(&self) -> LBody {
        body_model(*self)
    }
}

impl View for Block {
    type V = Seq<LStmt>;

    open spec fn view(&self) -> Seq<LStmt> {
        stmts_model(self.0@)
    }
}

impl View for FnTarget {
    type V = LTarget;

    open spec fn view(&self) -> LTarget {
        target_model(*self)
    }
}

// ---------------------------------------------------------------------
// The printed text, over models
// ---------------------------------------------------------------------

/// One indent level deeper (saturating: no real program reaches the bound).
pub open spec fn inc(ind: usize) -> usize {
    if ind < usize::MAX { (ind + 1) as usize } else { ind }
}

/// The indent prefix: four spaces per level.
pub open spec fn pad_text(ind: usize) -> Seq<char> {
    repeat("    "@, ind as nat)
}

/// A statement rendering that begins with `(` is pinned with a leading `;`.
pub open spec fn pinned(t: Seq<char>) -> Seq<char> {
    if t.len() > 0 && t[0] == '(' { seq![';'] + t } else { t }
}

pub open spec fn expr_text(e: LExpr, ind: usize) -> Seq<char>
    decreases e,
{
    match e {
        LExpr::Name(s) => s,
        LExpr::Lit(s) => s,
        LExpr::Raw(s) => s,
        LExpr::Paren(b) => seq!['('] + expr_text(*b, ind) + seq![')'],
        LExpr::Call(f, args) => expr_text(*f, ind) + seq!['('] + list_text(args, ind) + seq![')'],
        LExpr::Method(r, m, args) => expr_text(*r, ind) + seq![':'] + m + seq!['('] + list_text(args, ind)
            + seq![')'],
        LExpr::Index(b, s) => expr_text(*b, ind) + s,
        LExpr::Binop(op, l, r) => expr_text(*l, ind) + seq![' '] + op + seq![' '] + expr_text(*r, ind),
        LExpr::Neg(b) => seq!['-'] + expr_text(*b, ind),
        LExpr::Table(items) => seq!['{'] + items_text(items, ind) + seq!['}'],
        LExpr::TableSpaced(items) => "{ "@ + items_text(items, ind) + " }"@,
        LExpr::Func(ps, body) => "function("@ + joined(ps, ", "@) + seq![')'] + match body {
            LBody::Inline(ss) => seq![' '] + inline_text(ss, ind) + " end"@,
            LBody::Block(ss) => seq!['\n'] + block_text(ss, inc(ind)) + pad_text(ind) + "end"@,
        },
    }
}

/// Expressions joined by `, `.
pub open spec fn list_text(es: Seq<LExpr>, ind: usize) -> Seq<char>
    decreases es,
{
    if es.len() == 0 {
        Seq::empty()
    } else if es.len() == 1 {
        expr_text(es[0], ind)
    } else {
        list_text(es.drop_last(), ind) + ", "@ + expr_text(es.last(), ind)
    }
}

pub open spec fn item_text(it: LItem, ind: usize) -> Seq<char>
    decreases it,
{
    match it {
        LItem::Pos(e) => expr_text(e, ind),
        LItem::KV(k, e) => k + expr_text(e, ind),
    }
}

/// Table items joined by `, `.
pub open spec fn items_text(items: Seq<LItem>, ind: usize) -> Seq<char>
    decreases items, 0nat,
{
    if items.len() == 0 {
        Seq::empty()
    } else if items.len() == 1 {
        item_text(items[0], ind)
    } else {
        items_text(items.drop_last(), ind) + ", "@ + item_text(items.last(), ind)
    }
}

/// Inline function body: statements joined by `; `.
pub open spec fn inline_text(ss: Seq<LStmt>, ind: usize) -> Seq<char>
    decreases ss,
{
    if ss.len() == 0 {
        Seq::empty()
    } else if ss.len() == 1 {
        stmt_text(ss[0], ind)
    } else {
        inline_text(ss.drop_last(), ind) + "; "@ + stmt_text(ss.last(), ind)
    }
}

/// A statement as one full line (or run of lines): indent, pinned text,
/// newline.
pub open spec fn line_text(s: LStmt, ind: usize) -> Seq<char> {
    pad_text(ind) + pinned(stmt_text(s, ind)) + seq!['\n']
}

/// Every statement of a block, one per line at `ind`.
pub open spec fn block_text(ss: Seq<LStmt>, ind: usize) -> Seq<char>
    decreases ss,
{
    if ss.len() == 0 {
        Seq::empty()
    } else {
        block_text(ss.drop_last(), ind) + pad_text(ind) + pinned(stmt_text(ss.last(), ind)) + seq!['\n']
    }
}

/// The `elseif` arms of an `if`.
pub open spec fn elseifs_text(arms: Seq<(LExpr, Seq<LStmt>)>, ind: usize) -> Seq<char>
    decreases arms, 0nat,
{
    if arms.len() == 0 {
        Seq::empty()
    } else {
        elseifs_text(arms.drop_last(), ind) + pad_text(ind) + "elseif "@ + expr_text(arms.last().0, ind)
            + " then\n"@ + block_text(arms.last().1, inc(ind))
    }
}

/// The entries of a module export table.
pub open spec fn entries_text(es: Seq<(Seq<char>, LExpr)>, ind: usize) -> Seq<char>
    decreases es,
{
    if es.len() == 0 {
        Seq::empty()
    } else {
        entries_text(es.drop_last(), ind) + pad_text(inc(ind)) + es.last().0 + " = "@ + expr_text(
            es.last().1,
            inc(ind),
        ) + ",\n"@
    }
}

/// A named function's header up to its closing parameter paren.
pub open spec fn header_text(t: LTarget, params: Seq<Seq<char>>) -> Seq<char> {
    (match t {
        LTarget::LocalFn(n) => "local function "@ + n,
        LTarget::Slot(i) => "__mll_fn["@ + decimal(i as nat) + "] = function"@,
        LTarget::Assigned(l) => l + " = function"@,
        LTarget::ThunkSlot(i) => "__mll_tkf"@ + seq!['['] + decimal(i as nat) + "] = function"@,
    }) + seq!['('] + joined(params, ", "@) + seq![')']
}

/// A statement's own text: no leading indent, no trailing newline.
pub open spec fn stmt_text(s: LStmt, ind: usize) -> Seq<char>
    decreases s,
{
    match s {
        LStmt::Raw(t) => t,
        LStmt::Local(ns, init) => "local "@ + joined(ns, ", "@) + match init {
            Some(e) => " = "@ + expr_text(e, ind),
            None => Seq::empty(),
        },
        LStmt::Assign(l, e) => l + " = "@ + expr_text(e, ind),
        LStmt::Return(e) => "return "@ + expr_text(e, ind),
        LStmt::Expr(e) => expr_text(e, ind),
        LStmt::Do(b) => "do\n"@ + block_text(b, inc(ind)) + pad_text(ind) + "end"@,
        LStmt::WhileTrue(b) => "while true do\n"@ + block_text(b, inc(ind)) + pad_text(ind) + "end"@,
        LStmt::MultiAssign(ls, es) => joined(ls, ", "@) + " = "@ + list_text(es, ind),
        LStmt::ReturnNone => "return"@,
        LStmt::Goto(l) => "goto "@ + l,
        LStmt::Label(l) => "::"@ + l + "::"@,
        LStmt::Function(t, ps, b) => header_text(t, ps) + seq!['\n'] + block_text(b, inc(ind)) + pad_text(ind)
            + "end"@,
        LStmt::ReturnTable(es) => "return {\n"@ + entries_text(es, ind) + pad_text(ind) + seq!['}'],
        LStmt::AssignIf(l, c, t, e) => "if "@ + expr_text(c, ind) + " then "@ + l + " = "@ + expr_text(t, ind)
            + " else "@ + l + " = "@ + expr_text(e, ind) + " end"@,
        LStmt::If(c, t, arms, els) => "if "@ + expr_text(c, ind) + " then\n"@ + block_text(t, inc(ind))
            + elseifs_text(arms, ind) + match els {
            Some(b) => pad_text(ind) + "else\n"@ + block_text(b, inc(ind)),
            None => Seq::empty(),
        } + pad_text(ind) + "end"@,
    }
}


// ---------------------------------------------------------------------
// Builders
// ---------------------------------------------------------------------

/// The forward-declaration function table's reserved name.
pub const FN_TABLE: &'static str = "__mll_fn";

/// The lifted-thunk function table.
pub const TKF_TABLE: &'static str = "__mll_tkf";

/// A left-associated `and` chain over a non-empty condition list.
pub open spec fn and_fold(cs: Seq<LExpr>) -> LExpr
    decreases cs.len(),
{
    if cs.len() <= 1 {
        cs[0]
    } else {
        LExpr::Binop("and"@, Box::new(and_fold(cs.drop_last())), Box::new(cs.last()))
    }
}

impl Expr {
    /// A verbatim reference.
    pub fn name(s: &str) -> (r: Expr)
        ensures
            r@ == LExpr::Name(s@),
    {
        Expr::Name(String::from_str(s))
    }

    /// A rendered literal token.
    pub fn lit(s: &str) -> (r: Expr)
        ensures
            r@ == LExpr::Lit(s@),
    {
        Expr::Lit(String::from_str(s))
    }

    /// Preformatted expression text.
    pub fn raw(s: &str) -> (r: Expr)
        ensures
            r@ == LExpr::Raw(s@),
    {
        Expr::Raw(String::from_str(s))
    }

    /// `(e)`.
    pub fn paren(e: Expr) -> (r: Expr)
        ensures
            r@ == LExpr::Paren(Box::new(e@)),
    {
        Expr::Paren(Box::new(e))
    }

    /// `f(args)`.
    pub fn call(f: Expr, args: Vec<Expr>) -> (r: Expr)
        ensures
            r@ == LExpr::Call(Box::new(f@), exprs_model(args@)),
    {
        Expr::Call(Box::new(f), args)
    }

    /// `recv:m(args)`.
    pub fn method(recv: Expr, m: &str, args: Vec<Expr>) -> (r: Expr)
        ensures
            r@ == LExpr::Method(Box::new(recv@), m@, exprs_model(args@)),
    {
        Expr::Method(Box::new(recv), String::from_str(m), args)
    }

    /// `base<suffix>`.
    pub fn index(base: Expr, suffix: &str) -> (r: Expr)
        ensures
            r@ == LExpr::Index(Box::new(base@), suffix@),
    {
        Expr::Index(Box::new(base), String::from_str(suffix))
    }

    /// `l <op> r`.
    pub fn binop(op: &str, l: Expr, r: Expr) -> (e: Expr)
        ensures
            e@ == LExpr::Binop(op@, Box::new(l@), Box::new(r@)),
    {
        Expr::Binop(String::from_str(op), Box::new(l), Box::new(r))
    }

    /// `-e`.
    pub fn neg(e: Expr) -> (r: Expr)
        ensures
            r@ == LExpr::Neg(Box::new(e@)),
    {
        Expr::Neg(Box::new(e))
    }

    /// `__force(e)`.
    pub fn force(e: Expr) -> (r: Expr)
        ensures
            r@ == LExpr::Call(Box::new(LExpr::Name("__force"@)), seq![e@]),
    {
        let ghost em = e@;
        let mut args: Vec<Expr> = Vec::new();
        args.push(e);
        let f = Expr::Name(String::from_str("__force"));
        assert(f@ == LExpr::Name("__force"@));
        assert(exprs_model(args@) =~= seq![em]);
        Expr::Call(Box::new(f), args)
    }

    /// `function() return e end`.
    pub fn inline_fn0(e: Expr) -> (r: Expr)
        ensures
            r@ == LExpr::Func(Seq::empty(), LBody::Inline(seq![LStmt::Return(e@)])),
    {
        let ghost em = e@;
        let mut body: Vec<Stmt> = Vec::new();
        let st = Stmt::Return(e);
        assert(st@ == LStmt::Return(em));
        body.push(st);
        assert(stmts_model(body@) =~= seq![LStmt::Return(em)]);
        let fb = FuncBody::Inline(body);
        assert(fb@ == LBody::Inline(seq![LStmt::Return(em)]));
        let ps: Vec<String> = Vec::new();
        assert(strs_model(ps@) =~= Seq::<Seq<char>>::empty());
        Expr::Func(ps, fb)
    }

    /// `__thunk(function() return e end)`.
    pub fn thunk(e: Expr) -> (r: Expr)
        ensures
            r@ == LExpr::Call(
                Box::new(LExpr::Name("__thunk"@)),
                seq![LExpr::Func(Seq::empty(), LBody::Inline(seq![LStmt::Return(e@)]))],
            ),
    {
        let f = Expr::inline_fn0(e);
        let ghost fm = f@;
        let mut args: Vec<Expr> = Vec::new();
        args.push(f);
        assert(exprs_model(args@) =~= seq![fm]);
        let h = Expr::Name(String::from_str("__thunk"));
        assert(h@ == LExpr::Name("__thunk"@));
        Expr::Call(Box::new(h), args)
    }

    /// `name(args)`.
    pub fn call_named(name: &str, args: Vec<Expr>) -> (r: Expr)
        ensures
            r@ == LExpr::Call(Box::new(LExpr::Name(name@)), exprs_model(args@)),
    {
        let h = Expr::Name(String::from_str(name));
        assert(h@ == LExpr::Name(name@));
        Expr::Call(Box::new(h), args)
    }

    /// Fold a non-empty condition list into one left-associated `and`
    /// chain: `c1 and c2 and c3`.
    pub fn and_chain(conds: Vec<Expr>) -> (r: Expr)
        requires
            conds@.len() > 0,
        ensures
            r@ == and_fold(exprs_model(conds@)),
    {
        let ghost m = exprs_model(conds@);
        assert(m.len() == conds.len());
        let mut rest = conds;
        let first = rest.remove(0);
        let mut acc = first;
        let mut i: usize = 1;
        while rest.len() > 0
            invariant
                1 <= i <= m.len(),
                m.len() <= usize::MAX,
                rest@.len() == m.len() - i,
                forall|j: int| 0 <= j < rest@.len() ==> #[trigger] rest@[j]@ == m[i + j],
                acc@ == and_fold(m.take(i as int)),
            decreases rest@.len(),
        {
            let c = rest.remove(0);
            proof {
                let t = m.take(i as int + 1);
                assert(t.drop_last() =~= m.take(i as int));
                assert(t.last() == c@);
            }
            acc = Expr::binop("and", acc, c);
            i = i + 1;
        }
        assert(m.take(m.len() as int) =~= m);
        acc
    }
}

/// Does a non-slot header mention the function table, in its target name
/// or any parameter? (A deliberate substring test.)
pub fn name_mentions_fn_table(name: &str, params: &Vec<String>) -> (r: bool)
    ensures
        r == (crate::text::contains(name@, "__mll_fn"@) || exists|i: int|
            0 <= i < params@.len() && crate::text::contains(params@[i]@, "__mll_fn"@)),
{
    if crate::text::str_contains(name, FN_TABLE) {
        return true;
    }
    let mut i: usize = 0;
    while i < params.len()
        invariant
            i <= params@.len(),
            forall|j: int| 0 <= j < i ==> !crate::text::contains(params@[j]@, "__mll_fn"@),
        decreases params@.len() - i,
    {
        if crate::text::str_contains(params[i].as_str(), FN_TABLE) {
            return true;
        }
        i = i + 1;
    }
    false
}

impl FuncBody {
    /// The body's statements, layout-independent.
    pub fn stmts(&self) -> (r: &Vec<Stmt>)
        ensures
            stmts_model(r@) == match self@ {
                LBody::Inline(ss) => ss,
                LBody::Block(ss) => ss,
            },
    {
        match self {
            FuncBody::Inline(s) => s,
            FuncBody::Block(Block(s)) => s,
        }
    }
}

// ---------------------------------------------------------------------
// Printing
// ---------------------------------------------------------------------

/// Append the indent prefix for `ind`.
pub fn pad(ind: usize, out: &mut String)
    ensures
        final(out)@ == old(out)@ + pad_text(ind),
{
    push_repeat(out, "    ", ind);
}

pub fn inc_ind(ind: usize) -> (r: usize)
    ensures
        r == inc(ind),
{
    if ind < usize::MAX { ind + 1 } else { ind }
}

impl FnTarget {
    /// Append the header up to and including the parameter list's paren.
    pub fn render_header(&self, params: &Vec<String>, out: &mut String)
        ensures
            final(out)@ == old(out)@ + header_text(self@, strs_model(params@)),
    {
        match self {
            FnTarget::LocalFn(n) => {
                push_str(out, "local function ");
                push_str(out, n.as_str());
            },
            FnTarget::Slot(i) => {
                push_str(out, "__mll_fn[");
                let d = decimal_string(*i as u64);
                push_str(out, d.as_str());
                push_str(out, "] = function");
            },
            FnTarget::Assigned(lhs) => {
                push_str(out, lhs.as_str());
                push_str(out, " = function");
            },
            FnTarget::ThunkSlot(i) => {
                push_str(out, "__mll_tkf");
                push_char(out, '[');
                let d = decimal_string(*i as u64);
                push_str(out, d.as_str());
                push_str(out, "] = function");
            },
        }
        push_char(out, '(');
        push_joined(out, params, ", ");
        push_char(out, ')');
        proof {
            assert(out@ =~= old(out)@ + header_text(self@, strs_model(params@)));
        }
    }

    /// The rendered header as a string.
    pub fn header_string(&self, params: &Vec<String>) -> (r: String)
        ensures
            r@ == header_text(self@, strs_model(params@)),
    {
        let mut out = String::new();
        self.render_header(params, &mut out);
        out
    }
}

impl Expr {
    /// Append the expression's text at `ind` (no indent prefix of its own).
    pub fn render(&self, ind: usize, out: &mut String)
        ensures
            final(out)@ == old(out)@ + expr_text(self@, ind),
        decreases self, 1nat,
    {
        match self {
            Expr::Name(s) => push_str(out, s.as_str()),
            Expr::Lit(s) => push_str(out, s.as_str()),
            Expr::Raw(s) => push_str(out, s.as_str()),
            Expr::Paren(e) => {
                push_char(out, '(');
                e.render(ind, out);
                push_char(out, ')');
            },
            Expr::Call(f, args) => {
                f.render(ind, out);
                push_char(out, '(');
                render_list(args, ind, out);
                push_char(out, ')');
            },
            Expr::Method(recv, m, args) => {
                recv.render(ind, out);
                push_char(out, ':');
                push_str(out, m.as_str());
                push_char(out, '(');
                render_list(args, ind, out);
                push_char(out, ')');
            },
            Expr::Index(base, suffix) => {
                base.render(ind, out);
                push_str(out, suffix.as_str());
            },
            Expr::Binop(op, l, r) => {
                l.render(ind, out);
                push_char(out, ' ');
                push_str(out, op.as_str());
                push_char(out, ' ');
                r.render(ind, out);
            },
            Expr::Neg(e) => {
                push_char(out, '-');
                e.render(ind, out);
            },
            Expr::Table(items) => {
                push_char(out, '{');
                render_items(items, ind, out);
                push_char(out, '}');
            },
            Expr::TableSpaced(items) => {
                push_str(out, "{ ");
                render_items(items, ind, out);
                push_str(out, " }");
            },
            Expr::Func(..) => self.render_func(ind, out),
        }
        proof {
            assert(out@ =~= old(out)@ + expr_text(self@, ind));
        }
    }
}

impl Expr {
    fn render_func(&self, ind: usize, out: &mut String)
        requires
            self is Func,
        ensures
            final(out)@ == old(out)@ + expr_text(self@, ind),
        decreases self, 0nat,
    {
        if let Expr::Func(params, body) = self {
            push_str(out, "function(");
            push_joined(out, params, ", ");
            push_char(out, ')');
            let ghost mid = out@;
            match body {
                FuncBody::Inline(stmts) => {
                    push_char(out, ' ');
                    render_inline(stmts, ind, out);
                    push_str(out, " end");
                    assert(body@ == LBody::Inline(stmts_model(stmts@)));
                    assert(out@ =~= mid + seq![' '] + inline_text(stmts_model(stmts@), ind) + " end"@);
                },
                FuncBody::Block(block) => {
                    push_char(out, '\n');
                    block.render(inc_ind(ind), out);
                    pad(ind, out);
                    push_str(out, "end");
                    assert(body@ == LBody::Block(block@));
                    assert(out@ =~= mid + seq!['\n'] + block_text(block@, inc(ind)) + pad_text(ind) + "end"@);
                },
            }
            proof {
                assert(self@ == LExpr::Func(strs_model(params@), body@));
                assert(mid =~= old(out)@ + "function("@ + joined(strs_model(params@), ", "@) + seq![')']);
                assert(out@ =~= old(out)@ + expr_text(self@, ind));
            }
        }
    }
}

/// Append expressions joined by `, `.
pub fn render_list(args: &Vec<Expr>, ind: usize, out: &mut String)
    ensures
        final(out)@ == old(out)@ + list_text(exprs_model(args@), ind),
    decreases args, 0nat,
{
    let ghost m = exprs_model(args@);
    let mut i: usize = 0;
    while i < args.len()
        invariant
            i <= args@.len(),
            m == exprs_model(args@),
            out@ == old(out)@ + list_text(m.take(i as int), ind),
        decreases args@.len() - i,
    {
        if i > 0 {
            push_str(out, ", ");
        }
        assert(decreases_to!(args => args@[i as int]));
        args[i].render(ind, out);
        proof {
            let t = m.take(i as int + 1);
            assert(t.drop_last() =~= m.take(i as int));
            assert(t.last() == args@[i as int]@);
            assert(out@ =~= old(out)@ + list_text(t, ind));
        }
        i = i + 1;
    }
    assert(m.take(args@.len() as int) =~= m);
}

/// Append table items joined by `, `.
pub fn render_items(items: &Vec<Item>, ind: usize, out: &mut String)
    ensures
        final(out)@ == old(out)@ + items_text(items_model(items@), ind),
    decreases items, 0nat,
{
    let ghost m = items_model(items@);
    let mut i: usize = 0;
    while i < items.len()
        invariant
            i <= items@.len(),
            m == items_model(items@),
            out@ == old(out)@ + items_text(m.take(i as int), ind),
        decreases items@.len() - i,
    {
        if i > 0 {
            push_str(out, ", ");
        }
        assert(decreases_to!(items => items@[i as int]));
        let ghost before = out@;
        match &items[i] {
            Item::Pos(e) => e.render(ind, out),
            Item::KV(k, e) => {
                push_str(out, k.as_str());
                e.render(ind, out);
            },
        }
        assert(out@ =~= before + item_text(items@[i as int]@, ind));
        proof {
            let t = m.take(i as int + 1);
            assert(t.drop_last() =~= m.take(i as int));
            assert(t.last() == items@[i as int]@);
            assert(out@ =~= old(out)@ + items_text(t, ind));
        }
        i = i + 1;
    }
    assert(m.take(items@.len() as int) =~= m);
}

/// Append an inline function body: statements joined by `; `.
pub fn render_inline(stmts: &Vec<Stmt>, ind: usize, out: &mut String)
    ensures
        final(out)@ == old(out)@ + inline_text(stmts_model(stmts@), ind),
    decreases stmts, 0nat,
{
    let ghost m = stmts_model(stmts@);
    let mut i: usize = 0;
    while i < stmts.len()
        invariant
            i <= stmts@.len(),
            m == stmts_model(stmts@),
            out@ == old(out)@ + inline_text(m.take(i as int), ind),
        decreases stmts@.len() - i,
    {
        if i > 0 {
            push_str(out, "; ");
        }
        assert(decreases_to!(stmts => stmts@[i as int]));
        stmts[i].render(ind, out);
        proof {
            let t = m.take(i as int + 1);
            assert(t.drop_last() =~= m.take(i as int));
            assert(t.last() == stmts@[i as int]@);
            assert(out@ =~= old(out)@ + inline_text(t, ind));
        }
        i = i + 1;
    }
    assert(m.take(stmts@.len() as int) =~= m);
}

impl Block {
    /// Append every statement at `ind`, one per line.
    pub fn render(&self, ind: usize, out: &mut String)
        ensures
            final(out)@ == old(out)@ + block_text(self@, ind),
        decreases self, 0nat,
    {
        render_block(&self.0, ind, out);
    }
}

/// Append a statement list, one statement per line at `ind`.
pub fn render_block(stmts: &Vec<Stmt>, ind: usize, out: &mut String)
    ensures
        final(out)@ == old(out)@ + block_text(stmts_model(stmts@), ind),
    decreases stmts, 0nat,
{
    let ghost m = stmts_model(stmts@);
    let mut i: usize = 0;
    while i < stmts.len()
        invariant
            i <= stmts@.len(),
            m == stmts_model(stmts@),
            out@ == old(out)@ + block_text(m.take(i as int), ind),
        decreases stmts@.len() - i,
    {
        assert(decreases_to!(stmts => stmts@[i as int]));
        stmts[i].render_line(ind, out);
        proof {
            let t = m.take(i as int + 1);
            assert(t.drop_last() =~= m.take(i as int));
            assert(t.last() == stmts@[i as int]@);
            assert(out@ =~= old(out)@ + block_text(t, ind));
        }
        i = i + 1;
    }
    assert(m.take(stmts@.len() as int) =~= m);
}

/// Append the `elseif` arms.
fn render_elseifs(arms: &Vec<(Expr, Block)>, ind: usize, out: &mut String)
    ensures
        final(out)@ == old(out)@ + elseifs_text(arms_model(arms@), ind),
    decreases arms, 0nat,
{
    let ghost m = arms_model(arms@);
    let mut i: usize = 0;
    while i < arms.len()
        invariant
            i <= arms@.len(),
            m == arms_model(arms@),
            out@ == old(out)@ + elseifs_text(m.take(i as int), ind),
        decreases arms@.len() - i,
    {
        assert(decreases_to!(arms => arms@[i as int]));
        let (c, b) = &arms[i];
        pad(ind, out);
        push_str(out, "elseif ");
        c.render(ind, out);
        push_str(out, " then\n");
        b.render(inc_ind(ind), out);
        proof {
            let t = m.take(i as int + 1);
            assert(t.drop_last() =~= m.take(i as int));
            assert(out@ =~= old(out)@ + elseifs_text(t, ind));
        }
        i = i + 1;
    }
    assert(m.take(arms@.len() as int) =~= m);
}

/// Append the export-table entries.
fn render_entries(entries: &Vec<(String, Expr)>, ind: usize, out: &mut String)
    ensures
        final(out)@ == old(out)@ + entries_text(entries_model(entries@), ind),
    decreases entries, 0nat,
{
    let ghost m = entries_model(entries@);
    let mut i: usize = 0;
    while i < entries.len()
        invariant
            i <= entries@.len(),
            m == entries_model(entries@),
            out@ == old(out)@ + entries_text(m.take(i as int), ind),
        decreases entries@.len() - i,
    {
        assert(decreases_to!(entries => entries@[i as int]));
        let ghost before = out@;
        let (key, value) = &entries[i];
        pad(inc_ind(ind), out);
        push_str(out, key.as_str());
        push_str(out, " = ");
        value.render(inc_ind(ind), out);
        push_str(out, ",\n");
        proof {
            let t = m.take(i as int + 1);
            assert(t.drop_last() =~= m.take(i as int));
            assert(t.last() == (key@, value@));
            assert(out@ =~= before + pad_text(inc(ind)) + key@ + " = "@ + expr_text(value@, inc(ind)) + ",\n"@);
            assert(out@ =~= old(out)@ + entries_text(t, ind));
        }
        i = i + 1;
    }
    assert(m.take(entries@.len() as int) =~= m);
}

impl Stmt {
    /// Append the statement as a full line: indent, text (pinned with `;`
    /// when it begins with `(`), newline.
    pub fn render_line(&self, ind: usize, out: &mut String)
        ensures
            final(out)@ == old(out)@ + line_text(self@, ind),
        decreases self, 2nat,
    {
        pad(ind, out);
        let mut t = String::new();
        self.render(ind, &mut t);
        if t.as_str().unicode_len() > 0 && t.as_str().get_char(0) == '(' {
            push_char(out, ';');
        }
        push_str(out, t.as_str());
        push_char(out, '\n');
        proof {
            assert(out@ =~= old(out)@ + line_text(self@, ind));
        }
    }

    /// Append the statement's own text at `ind`.
    pub fn render(&self, ind: usize, out: &mut String)
        ensures
            final(out)@ == old(out)@ + stmt_text(self@, ind),
        decreases self, 1nat,
    {
        match self {
            Stmt::Raw(s) => push_str(out, s.as_str()),
            Stmt::Local(names, init) => {
                push_str(out, "local ");
                push_joined(out, names, ", ");
                match init {
                    Some(e) => {
                        push_str(out, " = ");
                        e.render(ind, out);
                    },
                    None => {},
                }
            },
            Stmt::Assign(lhs, e) => {
                push_str(out, lhs.as_str());
                push_str(out, " = ");
                e.render(ind, out);
            },
            Stmt::Return(e) => {
                push_str(out, "return ");
                e.render(ind, out);
            },
            Stmt::Expr(e) => e.render(ind, out),
            Stmt::Do(block) => {
                push_str(out, "do\n");
                block.render(inc_ind(ind), out);
                pad(ind, out);
                push_str(out, "end");
            },
            Stmt::WhileTrue(block) => {
                push_str(out, "while true do\n");
                block.render(inc_ind(ind), out);
                pad(ind, out);
                push_str(out, "end");
            },
            Stmt::MultiAssign(lhs, exprs) => {
                push_joined(out, lhs, ", ");
                push_str(out, " = ");
                render_list(exprs, ind, out);
            },
            Stmt::ReturnNone => push_str(out, "return"),
            Stmt::Goto(l) => {
                push_str(out, "goto ");
                push_str(out, l.as_str());
            },
            Stmt::Label(l) => {
                push_str(out, "::");
                push_str(out, l.as_str());
                push_str(out, "::");
            },
            Stmt::Function { target, params, body } => {
                target.render_header(params, out);
                push_char(out, '\n');
                body.render(inc_ind(ind), out);
                pad(ind, out);
                push_str(out, "end");
            },
            Stmt::ReturnTable(entries) => {
                push_str(out, "return {\n");
                render_entries(entries, ind, out);
                pad(ind, out);
                push_char(out, '}');
            },
            Stmt::AssignIf { .. } => self.render_assign_if(ind, out),
            Stmt::If { .. } => self.render_if(ind, out),
        }
        proof {
            assert(out@ =~= old(out)@ + stmt_text(self@, ind));
        }
    }
}

impl Stmt {
    #[verifier::rlimit(60)]
    fn render_if(&self, ind: usize, out: &mut String)
        requires
            self is If,
        ensures
            final(out)@ == old(out)@ + stmt_text(self@, ind),
        decreases self, 0nat,
    {
        if let Stmt::If { cond, then_b, elseifs, else_b } = self {
            push_str(out, "if ");
            cond.render(ind, out);
            push_str(out, " then\n");
            then_b.render(inc_ind(ind), out);
            render_elseifs(elseifs, ind, out);
            let ghost mid = out@;
            assert(mid =~= old(out)@ + "if "@ + expr_text(cond@, ind) + " then\n"@ + block_text(then_b@, inc(ind))
                + elseifs_text(arms_model(elseifs@), ind));
            let ghost els_text = match else_b {
                Some(b) => pad_text(ind) + "else\n"@ + block_text(b@, inc(ind)),
                None => Seq::<char>::empty(),
            };
            match else_b {
                Some(b) => {
                    pad(ind, out);
                    push_str(out, "else\n");
                    b.render(inc_ind(ind), out);
                },
                None => {},
            }
            assert(out@ =~= mid + els_text);
            pad(ind, out);
            push_str(out, "end");
            proof {
                assert(self@ == LStmt::If(cond@, then_b@, arms_model(elseifs@), match else_b {
                    Some(b) => Some(b@),
                    None => None,
                }));
                assert(out@ =~= old(out)@ + stmt_text(self@, ind));
            }
        }
    }

    fn render_assign_if(&self, ind: usize, out: &mut String)
        requires
            self is AssignIf,
        ensures
            final(out)@ == old(out)@ + stmt_text(self@, ind),
        decreases self, 0nat,
    {
        if let Stmt::AssignIf { lhs, cond, then_e, else_e } = self {
            push_str(out, "if ");
            cond.render(ind, out);
            push_str(out, " then ");
            push_str(out, lhs.as_str());
            push_str(out, " = ");
            then_e.render(ind, out);
            push_str(out, " else ");
            push_str(out, lhs.as_str());
            push_str(out, " = ");
            else_e.render(ind, out);
            push_str(out, " end");
            proof {
                assert(out@ =~= old(out)@ + stmt_text(self@, ind));
            }
        }
    }
}

/// The rendered text of a statement list at indent 0.
pub fn render_stmts(stmts: &Vec<Stmt>) -> (r: String)
    ensures
        r@ == block_text(stmts_model(stmts@), 0),
{
    let mut s = String::new();
    render_block(stmts, 0, &mut s);
    s
}

} // verus!
