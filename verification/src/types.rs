//! The type language of the typed intermediate representation, as far as
//! the back end reads it.

use vstd::prelude::*;

verus! {

/// A mata-ll type.
pub enum Ty {
    /// A type variable.
    Var(String),
    /// A rigid (skolem) type variable.
    Skolem(String),
    /// A type constructor: `Int`, `String`, `ST`, …
    Con(String),
    /// `()`.
    Unit,
    /// A promoted (type-level) literal.
    Promoted(String),
    /// `a -> b`.
    Arrow(Box<Ty>, Box<Ty>),
    /// Type application `f a`.
    App(Box<Ty>, Box<Ty>),
    /// `[a]`.
    List(Box<Ty>),
    /// `IO a`.
    IO(Box<Ty>),
    /// `LuaIO s a` (the scope parameter is a phantom).
    LuaIO(String, Box<Ty>),
    /// `(a, b, …)`.
    Tuple(Vec<Ty>),
    /// `forall vs. t`.
    Forall(Vec<String>, Box<Ty>),
}

/// `ty` is the constructor named `name`.
pub open spec fn is_con(ty: Ty, name: Seq<char>) -> bool {
    match ty {
        Ty::Con(n) => n@ == name,
        _ => false,
    }
}


/// `ty` is the `ST s` constructor application.
pub open spec fn is_st_head(f: Ty) -> bool {
    match f {
        Ty::App(c, _) => is_con(*c, "ST"@),
        _ => false,
    }
}

/// Is `f` the `ST s` head of an `ST s a` application?
pub fn st_head(f: &Ty) -> (r: bool)
    ensures
        r == is_st_head(*f),
{
    match f {
        Ty::App(c, _) => match &**c {
            Ty::Con(n) => crate::text::str_eq(n.as_str(), "ST"),
            _ => false,
        },
        _ => false,
    }
}

/// Is `ty` the constructor `String` or `ByteString`?
pub fn is_string_like(ty: &Ty) -> (r: bool)
    ensures
        r == (is_con(*ty, "String"@) || is_con(*ty, "ByteString"@)),
{
    match ty {
        Ty::Con(n) => crate::text::str_eq(n.as_str(), "String") || crate::text::str_eq(n.as_str(), "ByteString"),
        _ => false,
    }
}

/// IO/LuaIO/ST wrappers and foralls stripped off a type.
pub open spec fn strip_action(ty: Ty) -> Ty
    decreases ty,
{
    match ty {
        Ty::IO(t) => strip_action(*t),
        Ty::LuaIO(_, t) => strip_action(*t),
        Ty::Forall(_, t) => strip_action(*t),
        Ty::App(f, t) => if is_st_head(*f) {
            strip_action(*t)
        } else {
            ty
        },
        _ => ty,
    }
}

/// Strip IO/LuaIO/ST wrappers and foralls: the demand of interest for an
/// action is the demand on the value it yields.
pub fn strip_action_ty(ty: &Ty) -> (r: &Ty)
    ensures
        *r == strip_action(*ty),
    decreases ty,
{
    match ty {
        Ty::IO(t) => strip_action_ty(t),
        Ty::LuaIO(_, t) => strip_action_ty(t),
        Ty::Forall(_, t) => strip_action_ty(t),
        Ty::App(f, t) => {
            if st_head(f) {
                strip_action_ty(t)
            } else {
                ty
            }
        },
        _ => ty,
    }
}

/// Is the type (or, once fully applied, could it be) an IO/ST action?
pub open spec fn action_value(ty: Ty) -> bool
    decreases ty,
{
    match ty {
        Ty::IO(_) => true,
        Ty::LuaIO(_, _) => true,
        Ty::App(f, _) => is_st_head(*f),
        Ty::Forall(_, t) => action_value(*t),
        _ => false,
    }
}

/// Whether a type is (or could be, once fully applied) an IO/ST action
/// value — such an expression in a non-run position is suspended.
pub fn is_action_value_ty(ty: &Ty) -> (r: bool)
    ensures
        r == action_value(*ty),
    decreases ty,
{
    match ty {
        Ty::IO(_) | Ty::LuaIO(_, _) => true,
        Ty::App(f, _) => st_head(f),
        Ty::Forall(_, t) => is_action_value_ty(t),
        _ => false,
    }
}

/// No type variable, `forall` or skolem anywhere in the type (the `LuaIO`
/// scope parameter is a phantom and exempt).
pub open spec fn monomorphic(ty: Ty) -> bool
    decreases ty,
{
    match ty {
        Ty::Var(_) => false,
        Ty::Forall(..) => false,
        Ty::Skolem(..) => false,
        Ty::Con(_) => true,
        Ty::Unit => true,
        Ty::Promoted(_) => true,
        Ty::Arrow(a, b) => monomorphic(*a) && monomorphic(*b),
        Ty::App(a, b) => monomorphic(*a) && monomorphic(*b),
        Ty::List(a) => monomorphic(*a),
        Ty::IO(a) => monomorphic(*a),
        Ty::LuaIO(_, a) => monomorphic(*a),
        Ty::Tuple(es) => forall|i: int| 0 <= i < es@.len() ==> monomorphic(#[trigger] es@[i]),
    }
}

/// Is the type free of type variables, foralls and skolems?
pub fn ty_is_monomorphic(ty: &Ty) -> (r: bool)
    ensures
        r == monomorphic(*ty),
    decreases ty,
{
    match ty {
        Ty::Var(_) | Ty::Forall(..) | Ty::Skolem(..) => false,
        Ty::Con(_) | Ty::Unit | Ty::Promoted(_) => true,
        Ty::Arrow(a, b) | Ty::App(a, b) => ty_is_monomorphic(a) && ty_is_monomorphic(b),
        Ty::List(a) | Ty::IO(a) | Ty::LuaIO(_, a) => ty_is_monomorphic(a),
        Ty::Tuple(elems) => all_monomorphic(elems),
    }
}

/// Is every type of the list monomorphic?
pub fn all_monomorphic(elems: &Vec<Ty>) -> (r: bool)
    ensures
        r == forall|i: int| 0 <= i < elems@.len() ==> monomorphic(#[trigger] elems@[i]),
    decreases elems,
{
    let mut i: usize = 0;
    while i < elems.len()
        invariant
            i <= elems@.len(),
            forall|j: int| 0 <= j < i ==> monomorphic(#[trigger] elems@[j]),
        decreases elems@.len() - i,
    {
        assert(decreases_to!(elems => elems@[i as int]));
        if !ty_is_monomorphic(&elems[i]) {
            return false;
        }
        i = i + 1;
    }
    true
}

} // verus!
