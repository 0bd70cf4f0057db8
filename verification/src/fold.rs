//! Constant folding of literals: the arithmetic, comparison, boolean and
//! string operations the fold pass reduces at compile time, and the
//! compile-time `show` of scalar literals.
//!
//! Integer division and modulo follow the floor semantics of the source
//! language and of the Lua runtime: the quotient rounds toward negative
//! infinity and the remainder takes the sign of the divisor. A fold that
//! would trap or overflow at run time (a zero divisor, `i64` overflow, the
//! lone `minBound div (-1)`) is declined, so the runtime raises as it
//! would have. Floating-point literals are held as their source text here
//! and are not folded.

use vstd::prelude::*;
use crate::tir::{TExpr, TExprKind, TLiteral};
use crate::text::str_eq;

verus! {

broadcast use vstd::string::group_string_axioms;

// ---------------------------------------------------------------------
// Literal values
// ---------------------------------------------------------------------

/// A literal as a value.
pub enum LitV {
    Integer(i64),
    BigInteger(Seq<char>),
    Number(Seq<char>),
    Str(Seq<u8>),
    Bool(bool),
    Unit,
}

pub open spec fn lit_v(l: TLiteral) -> LitV {
    match l {
        TLiteral::Integer(n) => LitV::Integer(n),
        TLiteral::BigInteger(s) => LitV::BigInteger(s@),
        TLiteral::Number(s) => LitV::Number(s@),
        TLiteral::Str(b) => LitV::Str(b@),
        TLiteral::Bool(b) => LitV::Bool(b),
        TLiteral::Unit => LitV::Unit,
    }
}

pub open spec fn opt_lit(o: Option<TLiteral>) -> Option<LitV> {
    match o {
        Some(l) => Some(lit_v(l)),
        None => None,
    }
}

// ---------------------------------------------------------------------
// Floor division
// ---------------------------------------------------------------------

/// The quotient rounded toward negative infinity (`b != 0`).
pub open spec fn fdiv(a: int, b: int) -> int {
    if b > 0 { a / b } else { (-a) / (-b) }
}

/// The remainder of floor division: the sign of the divisor.
pub open spec fn fmod(a: int, b: int) -> int {
    a - b * fdiv(a, b)
}

/// Division truncating toward zero, as `i64::checked_div` computes it.
pub open spec fn tdiv(x: int, d: int) -> int {
    if x == 0 {
        0
    } else if x > 0 && d > 0 {
        x / d
    } else if x < 0 && d < 0 {
        (x * -1) / (d * -1)
    } else if x < 0 {
        ((x * -1) / d) * -1
    } else {
        (x / (d * -1)) * -1
    }
}

/// The remainder of truncating division, as `i64::checked_rem` computes it.
pub open spec fn trem(x: int, d: int) -> int {
    if x == 0 {
        0
    } else if x > 0 && d > 0 {
        x % d
    } else if x < 0 && d < 0 {
        ((x * -1) % (d * -1)) * -1
    } else if x < 0 {
        ((x * -1) % d) * -1
    } else {
        x % (d * -1)
    }
}

/// The truncated remainder is nonzero and of the other sign than the
/// divisor.
pub open spec fn adjusts(a: int, b: int) -> bool {
    trem(a, b) != 0 && ((trem(a, b) < 0) != (b < 0))
}

/// The floor quotient and remainder from the truncating ones: one less
/// (one divisor more) when the truncated remainder's sign differs from
/// the divisor's.
proof fn lemma_floor_from_trunc(a: int, b: int)
    requires
        b != 0,
        i64::MIN <= a <= i64::MAX,
        i64::MIN <= b <= i64::MAX,
    ensures
        a == b * tdiv(a, b) + trem(a, b),
        fdiv(a, b) == (if adjusts(a, b) { tdiv(a, b) - 1 } else { tdiv(a, b) }),
        fmod(a, b) == (if adjusts(a, b) { trem(a, b) + b } else { trem(a, b) }),
        adjusts(a, b) ==> tdiv(a, b) - 1 >= i64::MIN && i64::MIN <= trem(a, b) + b <= i64::MAX,
        -b < trem(a, b) < b || b < trem(a, b) < -b,
        !(a == i64::MIN && b == -1) ==> i64::MIN <= tdiv(a, b) <= i64::MAX,
{
    let q = tdiv(a, b);
    let r = trem(a, b);
    if a == 0 {
        assert(fdiv(a, b) == 0) by {
            if b > 0 {
                vstd::arithmetic::div_mod::lemma_fundamental_div_mod_converse(0, b, 0, 0);
            } else {
                vstd::arithmetic::div_mod::lemma_fundamental_div_mod_converse(0, -b, 0, 0);
            }
        }
    } else if a > 0 && b > 0 {
        vstd::arithmetic::div_mod::lemma_fundamental_div_mod(a, b);
        vstd::arithmetic::div_mod::lemma_mod_pos_bound(a, b);
        vstd::arithmetic::div_mod::lemma_div_pos_is_pos(a, b);
        vstd::arithmetic::div_mod::lemma_div_is_ordered_by_denominator(a, 1, b);
        assert(a / 1 == a);
    } else if a < 0 && b < 0 {
        let m = -a;
        let c = -b;
        vstd::arithmetic::div_mod::lemma_fundamental_div_mod(m, c);
        vstd::arithmetic::div_mod::lemma_mod_pos_bound(m, c);
        vstd::arithmetic::div_mod::lemma_div_pos_is_pos(m, c);
        vstd::arithmetic::div_mod::lemma_div_is_ordered_by_denominator(m, 1, c);
        assert(m / 1 == m);
        if c >= 2 {
            vstd::arithmetic::div_mod::lemma_div_is_ordered_by_denominator(m, 2, c);
        }
        assert(a == b * q + r) by (nonlinear_arith)
            requires
                m == c * (m / c) + m % c,
                q == m / c,
                r == -(m % c),
                a == -m,
                b == -c,
        ;
    } else if a < 0 {
        let m = -a;
        vstd::arithmetic::div_mod::lemma_fundamental_div_mod(m, b);
        vstd::arithmetic::div_mod::lemma_mod_pos_bound(m, b);
        vstd::arithmetic::div_mod::lemma_div_pos_is_pos(m, b);
        vstd::arithmetic::div_mod::lemma_div_is_ordered_by_denominator(m, 1, b);
        assert(m / 1 == m);
        let k = m / b;
        let s = m % b;
        assert(q == -k);
        assert(r == -s);
        assert(a == b * q + r) by (nonlinear_arith)
            requires
                m == b * k + s,
                q == -k,
                r == -s,
                a == -m,
        ;
        if s == 0 {
            assert(a == (-k) * b + 0) by (nonlinear_arith)
                requires
                    m == b * k + s,
                    s == 0,
                    a == -m,
            ;
            vstd::arithmetic::div_mod::lemma_fundamental_div_mod_converse(a, b, -k, 0);
        } else {
            assert(a == (-k - 1) * b + (b - s)) by (nonlinear_arith)
                requires
                    m == b * k + s,
                    a == -m,
            ;
            vstd::arithmetic::div_mod::lemma_fundamental_div_mod_converse(a, b, -k - 1, b - s);
            assert(2 * k <= m) by (nonlinear_arith)
                requires
                    m == b * k + s,
                    b >= 2,
                    k >= 0,
                    s > 0,
            ;
        }
    } else {
        let c = -b;
        vstd::arithmetic::div_mod::lemma_fundamental_div_mod(a, c);
        vstd::arithmetic::div_mod::lemma_mod_pos_bound(a, c);
        vstd::arithmetic::div_mod::lemma_div_pos_is_pos(a, c);
        vstd::arithmetic::div_mod::lemma_div_is_ordered_by_denominator(a, 1, c);
        assert(a / 1 == a);
        let k = a / c;
        let s = a % c;
        assert(q == -k);
        assert(r == s);
        assert(a == b * q + r) by (nonlinear_arith)
            requires
                a == c * k + s,
                q == -k,
                r == s,
                b == -c,
        ;
        if s == 0 {
            assert(-a == (-k) * c + 0) by (nonlinear_arith)
                requires
                    a == c * k + s,
                    s == 0,
            ;
            vstd::arithmetic::div_mod::lemma_fundamental_div_mod_converse(-a, c, -k, 0);
        } else {
            assert(-a == (-k - 1) * c + (c - s)) by (nonlinear_arith)
                requires
                    a == c * k + s,
            ;
            vstd::arithmetic::div_mod::lemma_fundamental_div_mod_converse(-a, c, -k - 1, c - s);
            assert(2 * k <= a) by (nonlinear_arith)
                requires
                    a == c * k + s,
                    c >= 2,
                    k >= 0,
                    s > 0,
            ;
        }
    }
    let adj = adjusts(a, b);
    let f = fdiv(a, b);
    assert(a - b * f == (if adj { r + b } else { r })) by (nonlinear_arith)
        requires
            a == b * q + r,
            f == (if adj { q - 1 } else { q }),
    ;
}

/// Floor division: `None` on a zero divisor and on `i64::MIN div (-1)`,
/// whose quotient has no `i64` value.
pub fn floor_div(a: i64, b: i64) -> (r: Option<i64>)
    ensures
        r == (if b == 0 || (a == i64::MIN && b == -1) { None } else { Some(fdiv(a as int, b as int) as i64) }),
        r is Some ==> r.unwrap() as int == fdiv(a as int, b as int),
{
    if b == 0 || (a == i64::MIN && b == -1) {
        return None;
    }
    proof {
        lemma_floor_from_trunc(a as int, b as int);
    }
    let q = match a.checked_div(b) {
        Some(q) => q,
        None => {
            return None;
        },
    };
    let r = match a.checked_rem(b) {
        Some(r) => r,
        None => {
            return None;
        },
    };
    assert(q as int == tdiv(a as int, b as int));
    assert(r as int == trem(a as int, b as int));
    if r != 0 && ((r < 0) != (b < 0)) {
        Some(q - 1)
    } else {
        Some(q)
    }
}

/// Floor modulo: the sign of the divisor. `None` on a zero divisor and on
/// `i64::MIN mod (-1)`.
pub fn floor_mod(a: i64, b: i64) -> (r: Option<i64>)
    ensures
        r == (if b == 0 || (a == i64::MIN && b == -1) { None } else { Some(fmod(a as int, b as int) as i64) }),
        r is Some ==> r.unwrap() as int == fmod(a as int, b as int),
{
    if b == 0 || (a == i64::MIN && b == -1) {
        return None;
    }
    proof {
        lemma_floor_from_trunc(a as int, b as int);
    }
    let r = match a.checked_rem(b) {
        Some(r) => r,
        None => {
            return None;
        },
    };
    assert(r as int == trem(a as int, b as int));
    if r != 0 && ((r < 0) != (b < 0)) {
        Some(r + b)
    } else {
        Some(r)
    }
}

/// Floor division and modulo put the dividend back together, and the
/// remainder has the sign of the divisor and is smaller than it.
pub proof fn lemma_floor_div_mod(a: int, b: int)
    requires
        b != 0,
    ensures
        a == b * fdiv(a, b) + fmod(a, b),
        b > 0 ==> 0 <= fmod(a, b) < b,
        b < 0 ==> b < fmod(a, b) <= 0,
{
    if b > 0 {
        vstd::arithmetic::div_mod::lemma_fundamental_div_mod(a, b);
        vstd::arithmetic::div_mod::lemma_mod_bound(a, b);
        assert(fmod(a, b) == a % b);
    } else {
        vstd::arithmetic::div_mod::lemma_fundamental_div_mod(-a, -b);
        vstd::arithmetic::div_mod::lemma_mod_bound(-a, -b);
        assert(fmod(a, b) == -((-a) % (-b))) by (nonlinear_arith)
            requires
                -a == (-b) * ((-a) / (-b)) + (-a) % (-b),
                fmod(a, b) == a - b * ((-a) / (-b)),
        ;
    }
}

// ---------------------------------------------------------------------
// Literal folds
// ---------------------------------------------------------------------

/// An `Int` operation on two literals.
pub open spec fn int_fold(op: Seq<char>, a: i64, b: i64) -> Option<LitV> {
    let x = a as int;
    let y = b as int;
    if op == "+"@ {
        if i64::MIN <= x + y <= i64::MAX { Some(LitV::Integer((x + y) as i64)) } else { None }
    } else if op == "-"@ {
        if i64::MIN <= x - y <= i64::MAX { Some(LitV::Integer((x - y) as i64)) } else { None }
    } else if op == "*"@ {
        if i64::MIN <= x * y <= i64::MAX { Some(LitV::Integer((x * y) as i64)) } else { None }
    } else if op == "div"@ {
        if b == 0 || (a == i64::MIN && b == -1) { None } else { Some(LitV::Integer(fdiv(x, y) as i64)) }
    } else if op == "mod"@ {
        if b == 0 || (a == i64::MIN && b == -1) { None } else { Some(LitV::Integer(fmod(x, y) as i64)) }
    } else if op == "=="@ {
        Some(LitV::Bool(a == b))
    } else if op == "/="@ {
        Some(LitV::Bool(a != b))
    } else if op == "<"@ {
        Some(LitV::Bool(a < b))
    } else if op == ">"@ {
        Some(LitV::Bool(a > b))
    } else if op == "<="@ {
        Some(LitV::Bool(a <= b))
    } else if op == ">="@ {
        Some(LitV::Bool(a >= b))
    } else {
        None
    }
}

/// A `Bool` operation on two literals.
pub open spec fn bool_fold(op: Seq<char>, a: bool, b: bool) -> Option<LitV> {
    if op == "&&"@ {
        Some(LitV::Bool(a && b))
    } else if op == "||"@ {
        Some(LitV::Bool(a || b))
    } else if op == "=="@ {
        Some(LitV::Bool(a == b))
    } else if op == "/="@ {
        Some(LitV::Bool(a != b))
    } else {
        None
    }
}

/// An infix operation on two literal operands: integer arithmetic and
/// comparison, string concatenation, boolean logic.
pub open spec fn infix_fold(op: Seq<char>, l: LitV, r: LitV) -> Option<LitV> {
    match l {
        LitV::Integer(a) => match r {
            LitV::Integer(b) => int_fold(op, a, b),
            _ => None,
        },
        LitV::Str(a) => match r {
            LitV::Str(b) => if op == "<>"@ { Some(LitV::Str(a + b)) } else { None },
            _ => None,
        },
        LitV::Bool(a) => match r {
            LitV::Bool(b) => bool_fold(op, a, b),
            _ => None,
        },
        _ => None,
    }
}

/// The literal under any parens.
pub open spec fn unwrap_lit(e: TExpr) -> Option<TLiteral>
    decreases e,
{
    match e.kind {
        TExprKind::Lit(l) => Some(l),
        TExprKind::Paren(inner) => unwrap_lit(*inner),
        _ => None,
    }
}

/// The fold of `lhs op rhs`, where both operands are literals.
pub open spec fn infix_fold_exprs(op: Seq<char>, lhs: TExpr, rhs: TExpr) -> Option<LitV> {
    match unwrap_lit(lhs) {
        Some(l) => match unwrap_lit(rhs) {
            Some(r) => infix_fold(op, lit_v(l), lit_v(r)),
            None => None,
        },
        None => None,
    }
}

/// `-n` of an integer literal that has a negation in `i64`.
pub open spec fn negate_fold(l: LitV) -> Option<LitV> {
    match l {
        LitV::Integer(n) => if n != i64::MIN { Some(LitV::Integer((-n) as i64)) } else { None },
        _ => None,
    }
}

/// The ASCII decimal digits of `n`.
pub open spec fn dec_bytes(n: nat) -> Seq<u8>
    decreases n,
{
    if n < 10 {
        seq![(48 + n) as u8]
    } else {
        dec_bytes(n / 10) + seq![(48 + n % 10) as u8]
    }
}

/// `n` in decimal, with a leading `-` when negative.
pub open spec fn signed_dec_bytes(n: int) -> Seq<u8> {
    if n < 0 { seq![45u8] + dec_bytes((-n) as nat) } else { dec_bytes(n as nat) }
}

pub open spec fn true_bytes() -> Seq<u8> {
    seq![84u8, 114u8, 117u8, 101u8]
}

pub open spec fn false_bytes() -> Seq<u8> {
    seq![70u8, 97u8, 108u8, 115u8, 101u8]
}

/// Compile-time `show` of a scalar literal: `show_Int` of an integer
/// within ±2^53 (where every Lua target prints the same digits) and
/// `show_Bool`.
pub open spec fn show_fold(name: Seq<char>, l: LitV) -> Option<LitV> {
    if name == "show_Int"@ {
        match l {
            LitV::Integer(n) => if -0x20000000000000 <= n <= 0x20000000000000 {
                Some(LitV::Str(signed_dec_bytes(n as int)))
            } else {
                None
            },
            _ => None,
        }
    } else if name == "show_Bool"@ {
        match l {
            LitV::Bool(b) => Some(LitV::Str(if b { true_bytes() } else { false_bytes() })),
            _ => None,
        }
    } else {
        None
    }
}

/// The operator a monomorphized typeclass method stands for.
pub open spec fn method_op(name: Seq<char>) -> Option<Seq<char>> {
    if name == "eq_Int"@ || name == "eq_Number"@ || name == "eq_String"@ || name == "eq_Bool"@ {
        Some("=="@)
    } else if name == "ord_lt__Int"@ || name == "ord_lt__Number"@ || name == "ord_lt__String"@ {
        Some("<"@)
    } else if name == "ord_gt__Int"@ || name == "ord_gt__Number"@ || name == "ord_gt__String"@ {
        Some(">"@)
    } else if name == "ord_le__Int"@ || name == "ord_le__Number"@ || name == "ord_le__String"@ {
        Some("<="@)
    } else if name == "ord_ge__Int"@ || name == "ord_ge__Number"@ || name == "ord_ge__String"@ {
        Some(">="@)
    } else if name == "semigroup_String"@ {
        Some("<>"@)
    } else {
        None
    }
}

/// An `Int` operation on two literals.
pub fn fold_int_int(op: &str, a: i64, b: i64) -> (r: Option<TLiteral>)
    ensures
        opt_lit(r) == int_fold(op@, a, b),
{
    if str_eq(op, "+") {
        match a.checked_add(b) {
            Some(v) => Some(TLiteral::Integer(v)),
            None => None,
        }
    } else if str_eq(op, "-") {
        match a.checked_sub(b) {
            Some(v) => Some(TLiteral::Integer(v)),
            None => None,
        }
    } else if str_eq(op, "*") {
        match a.checked_mul(b) {
            Some(v) => Some(TLiteral::Integer(v)),
            None => None,
        }
    } else if str_eq(op, "div") {
        match floor_div(a, b) {
            Some(v) => Some(TLiteral::Integer(v)),
            None => None,
        }
    } else if str_eq(op, "mod") {
        match floor_mod(a, b) {
            Some(v) => Some(TLiteral::Integer(v)),
            None => None,
        }
    } else if str_eq(op, "==") {
        Some(TLiteral::Bool(a == b))
    } else if str_eq(op, "/=") {
        Some(TLiteral::Bool(a != b))
    } else if str_eq(op, "<") {
        Some(TLiteral::Bool(a < b))
    } else if str_eq(op, ">") {
        Some(TLiteral::Bool(a > b))
    } else if str_eq(op, "<=") {
        Some(TLiteral::Bool(a <= b))
    } else if str_eq(op, ">=") {
        Some(TLiteral::Bool(a >= b))
    } else {
        None
    }
}

/// A `Bool` operation on two literals.
pub fn fold_bool_bool(op: &str, a: bool, b: bool) -> (r: Option<TLiteral>)
    ensures
        opt_lit(r) == bool_fold(op@, a, b),
{
    if str_eq(op, "&&") {
        Some(TLiteral::Bool(a && b))
    } else if str_eq(op, "||") {
        Some(TLiteral::Bool(a || b))
    } else if str_eq(op, "==") {
        Some(TLiteral::Bool(a == b))
    } else if str_eq(op, "/=") {
        Some(TLiteral::Bool(a != b))
    } else {
        None
    }
}

/// The literal under any parens.
pub fn unwrap_lit_exec(e: &TExpr) -> (r: Option<&TLiteral>)
    ensures
        match r {
            Some(l) => unwrap_lit(*e) == Some(*l),
            None => unwrap_lit(*e) is None,
        },
    decreases e,
{
    match &e.kind {
        TExprKind::Lit(l) => Some(l),
        TExprKind::Paren(inner) => unwrap_lit_exec(inner),
        _ => None,
    }
}

fn concat_bytes(a: &Vec<u8>, b: &Vec<u8>) -> (r: Vec<u8>)
    ensures
        r@ == a@ + b@,
{
    let mut out: Vec<u8> = Vec::new();
    let mut i: usize = 0;
    while i < a.len()
        invariant
            i <= a@.len(),
            out@ == a@.take(i as int),
        decreases a@.len() - i,
    {
        out.push(a[i]);
        assert(out@ =~= a@.take(i as int + 1));
        i = i + 1;
    }
    let mut j: usize = 0;
    while j < b.len()
        invariant
            i == a@.len(),
            j <= b@.len(),
            out@ == a@ + b@.take(j as int),
        decreases b@.len() - j,
    {
        out.push(b[j]);
        assert(out@ =~= a@ + b@.take(j as int + 1));
        j = j + 1;
    }
    assert(a@.take(i as int) =~= a@);
    assert(b@.take(j as int) =~= b@);
    out
}

/// Fold `lhs op rhs` when both operands are literals and the operation
/// folds.
pub fn try_fold_infix(op: &str, lhs: &TExpr, rhs: &TExpr) -> (r: Option<TLiteral>)
    ensures
        opt_lit(r) == infix_fold_exprs(op@, *lhs, *rhs),
{
    let l = match unwrap_lit_exec(lhs) {
        Some(l) => l,
        None => {
            return None;
        },
    };
    let r = match unwrap_lit_exec(rhs) {
        Some(r) => r,
        None => {
            return None;
        },
    };
    match l {
        TLiteral::Integer(a) => match r {
            TLiteral::Integer(b) => fold_int_int(op, *a, *b),
            _ => None,
        },
        TLiteral::Str(a) => match r {
            TLiteral::Str(b) => {
                if str_eq(op, "<>") {
                    Some(TLiteral::Str(concat_bytes(a, b)))
                } else {
                    None
                }
            },
            _ => None,
        },
        TLiteral::Bool(a) => match r {
            TLiteral::Bool(b) => fold_bool_bool(op, *a, *b),
            _ => None,
        },
        _ => None,
    }
}

/// `-n` of a literal, where it folds.
pub fn fold_negate(l: &TLiteral) -> (r: Option<TLiteral>)
    ensures
        opt_lit(r) == negate_fold(lit_v(*l)),
{
    match l {
        TLiteral::Integer(n) => {
            if *n != i64::MIN {
                Some(TLiteral::Integer(-*n))
            } else {
                None
            }
        },
        _ => None,
    }
}

fn dec_bytes_exec(n: u64) -> (r: Vec<u8>)
    ensures
        r@ == dec_bytes(n as nat),
    decreases n,
{
    if n < 10 {
        let mut v: Vec<u8> = Vec::new();
        v.push((48 + n) as u8);
        assert(v@ =~= seq![(48 + n) as u8]);
        v
    } else {
        let mut v = dec_bytes_exec(n / 10);
        v.push((48 + n % 10) as u8);
        v
    }
}

/// Compile-time `show` of a literal argument, where it folds.
pub fn try_fold_show(name: &str, arg: &TExpr) -> (r: Option<TLiteral>)
    ensures
        opt_lit(r) == match unwrap_lit(*arg) {
            Some(l) => show_fold(name@, lit_v(l)),
            None => None,
        },
{
    let l = match unwrap_lit_exec(arg) {
        Some(l) => l,
        None => {
            return None;
        },
    };
    if str_eq(name, "show_Int") {
        match l {
            TLiteral::Integer(n) => {
                let n = *n;
                if n < -0x20000000000000 || n > 0x20000000000000 {
                    return None;
                }
                if n < 0 {
                    let digits = dec_bytes_exec((-n) as u64);
                    let mut v: Vec<u8> = Vec::new();
                    v.push(45u8);
                    let out = concat_bytes(&v, &digits);
                    assert(v@ =~= seq![45u8]);
                    Some(TLiteral::Str(out))
                } else {
                    Some(TLiteral::Str(dec_bytes_exec(n as u64)))
                }
            },
            _ => None,
        }
    } else if str_eq(name, "show_Bool") {
        match l {
            TLiteral::Bool(b) => {
                let mut v: Vec<u8> = Vec::new();
                if *b {
                    v.push(84u8);
                    v.push(114u8);
                    v.push(117u8);
                    v.push(101u8);
                    assert(v@ =~= true_bytes());
                } else {
                    v.push(70u8);
                    v.push(97u8);
                    v.push(108u8);
                    v.push(115u8);
                    v.push(101u8);
                    assert(v@ =~= false_bytes());
                }
                Some(TLiteral::Str(v))
            },
            _ => None,
        }
    } else {
        None
    }
}

/// The operator a monomorphized typeclass method stands for.
pub fn resolved_method_to_op(name: &str) -> (r: Option<&'static str>)
    ensures
        match r {
            Some(op) => method_op(name@) == Some(op@),
            None => method_op(name@) is None,
        },
{
    if str_eq(name, "eq_Int") || str_eq(name, "eq_Number") || str_eq(name, "eq_String") || str_eq(name, "eq_Bool") {
        Some("==")
    } else if str_eq(name, "ord_lt__Int") || str_eq(name, "ord_lt__Number") || str_eq(name, "ord_lt__String") {
        Some("<")
    } else if str_eq(name, "ord_gt__Int") || str_eq(name, "ord_gt__Number") || str_eq(name, "ord_gt__String") {
        Some(">")
    } else if str_eq(name, "ord_le__Int") || str_eq(name, "ord_le__Number") || str_eq(name, "ord_le__String") {
        Some("<=")
    } else if str_eq(name, "ord_ge__Int") || str_eq(name, "ord_ge__Number") || str_eq(name, "ord_ge__String") {
        Some(">=")
    } else if str_eq(name, "semigroup_String") {
        Some("<>")
    } else {
        None
    }
}


// ---------------------------------------------------------------------
// What the literal folds compute
// ---------------------------------------------------------------------

/// An integer comparison folds to the truth of the comparison, for every
/// pair of operands; so `>=` is the negation of `<`, `>` is `<` with its
/// operands swapped, and `/=` is the negation of `==`.
pub proof fn lemma_int_comparisons(a: i64, b: i64)
    ensures
        int_fold("=="@, a, b) == Some(LitV::Bool(a == b)),
        int_fold("/="@, a, b) == Some(LitV::Bool(a != b)),
        int_fold("<"@, a, b) == Some(LitV::Bool(a < b)),
        int_fold(">"@, a, b) == Some(LitV::Bool(a > b)),
        int_fold("<="@, a, b) == Some(LitV::Bool(a <= b)),
        int_fold(">="@, a, b) == Some(LitV::Bool(a >= b)),
        int_fold(">="@, a, b) != int_fold("<"@, a, b),
        int_fold(">"@, a, b) == int_fold("<"@, b, a),
        int_fold("<="@, a, b) == int_fold(">="@, b, a),
        int_fold("/="@, a, b) != int_fold("=="@, a, b),
{
    reveal_strlit("==");
    reveal_strlit("/=");
    reveal_strlit("<");
    reveal_strlit(">");
    reveal_strlit("<=");
    reveal_strlit(">=");
    reveal_strlit("+");
    reveal_strlit("-");
    reveal_strlit("*");
    reveal_strlit("div");
    reveal_strlit("mod");
    let ops = seq!["+"@, "-"@, "*"@, "div"@, "mod"@, "=="@, "/="@, "<"@, ">"@, "<="@, ">="@];
    assert(ops[0][0] == '+' && ops[1][0] == '-' && ops[2][0] == '*' && ops[3][0] == 'd' && ops[4][0] == 'm');
    assert("=="@ != "+"@ && "=="@ != "-"@ && "=="@ != "*"@ && "=="@ != "div"@ && "=="@ != "mod"@) by {
        assert("=="@[0] == '=');
    }
    assert("/="@ != "+"@ && "/="@ != "-"@ && "/="@ != "*"@ && "/="@ != "div"@ && "/="@ != "mod"@ && "/="@ != "=="@) by {
        assert("/="@[0] == '/');
    }
    assert("<"@ != "+"@ && "<"@ != "-"@ && "<"@ != "*"@ && "<"@ != "div"@ && "<"@ != "mod"@ && "<"@ != "=="@ && "<"@ != "/="@) by {
        assert("<"@[0] == '<');
    }
    assert(">"@ != "+"@ && ">"@ != "-"@ && ">"@ != "*"@ && ">"@ != "div"@ && ">"@ != "mod"@ && ">"@ != "=="@ && ">"@ != "/="@
        && ">"@ != "<"@) by {
        assert(">"@[0] == '>');
    }
    assert("<="@ != "+"@ && "<="@ != "-"@ && "<="@ != "*"@ && "<="@ != "div"@ && "<="@ != "mod"@ && "<="@ != "=="@
        && "<="@ != "/="@ && "<="@ != "<"@ && "<="@ != ">"@) by {
        assert("<="@[0] == '<' && "<="@.len() == 2);
    }
    assert(">="@ != "+"@ && ">="@ != "-"@ && ">="@ != "*"@ && ">="@ != "div"@ && ">="@ != "mod"@ && ">="@ != "=="@
        && ">="@ != "/="@ && ">="@ != "<"@ && ">="@ != ">"@ && ">="@ != "<="@) by {
        assert(">="@[0] == '>' && ">="@.len() == 2);
    }
}

/// Integer addition, subtraction and multiplication fold to the exact
/// result exactly when it fits in `i64`, and are declined otherwise.
pub proof fn lemma_int_arithmetic(a: i64, b: i64)
    ensures
        int_fold("+"@, a, b) == if i64::MIN <= a + b <= i64::MAX { Some(LitV::Integer((a + b) as i64)) } else { None },
        int_fold("-"@, a, b) == if i64::MIN <= a - b <= i64::MAX { Some(LitV::Integer((a - b) as i64)) } else { None },
        int_fold("*"@, a, b) == if i64::MIN <= a * b <= i64::MAX { Some(LitV::Integer((a * b) as i64)) } else { None },
{
    reveal_strlit("+");
    reveal_strlit("-");
    reveal_strlit("*");
    assert("-"@ != "+"@) by {
        assert("-"@[0] == '-');
    }
    assert("*"@ != "+"@ && "*"@ != "-"@) by {
        assert("*"@[0] == '*');
    }
}

/// Boolean operations fold to their truth tables.
pub proof fn lemma_bool_ops(a: bool, b: bool)
    ensures
        bool_fold("&&"@, a, b) == Some(LitV::Bool(a && b)),
        bool_fold("||"@, a, b) == Some(LitV::Bool(a || b)),
        bool_fold("=="@, a, b) == Some(LitV::Bool(a == b)),
        bool_fold("/="@, a, b) == Some(LitV::Bool(a != b)),
{
    reveal_strlit("&&");
    reveal_strlit("||");
    reveal_strlit("==");
    reveal_strlit("/=");
    assert("||"@ != "&&"@) by {
        assert("||"@[0] == '|');
    }
    assert("=="@ != "&&"@ && "=="@ != "||"@) by {
        assert("=="@[0] == '=');
    }
    assert("/="@ != "&&"@ && "/="@ != "||"@ && "/="@ != "=="@) by {
        assert("/="@[0] == '/');
    }
}


/// String concatenation of two string literals folds to the joined bytes;
/// no other operation folds two strings.
pub proof fn lemma_string_concat(op: Seq<char>, a: Seq<u8>, b: Seq<u8>)
    ensures
        infix_fold(op, LitV::Str(a), LitV::Str(b)) == if op == "<>"@ { Some(LitV::Str(a + b)) } else { None },
        op == "<>"@ ==> (infix_fold(op, LitV::Str(a), LitV::Str(b)) matches Some(LitV::Str(r)) && r.len() == a.len() + b.len()
            && r.subrange(0, a.len() as int) == a && r.subrange(a.len() as int, r.len() as int) == b),
{
    if op == "<>"@ {
        assert((a + b).subrange(0, a.len() as int) =~= a);
        assert((a + b).subrange(a.len() as int, (a + b).len() as int) =~= b);
    }
}

/// Negating an integer literal folds to its arithmetic negation, except
/// for the one value whose negation has no `i64`.
pub proof fn lemma_negate(n: i64)
    ensures
        negate_fold(LitV::Integer(n)) == if n == i64::MIN { None } else { Some(LitV::Integer((-n) as i64)) },
        n != i64::MIN ==> (negate_fold(LitV::Integer(n)) matches Some(LitV::Integer(m)) && m + n == 0),
{
}

} // verus!
