use lib::fold::{floor_div, floor_mod, fold_bool_bool, fold_int_int, fold_negate, resolved_method_to_op, try_fold_infix, try_fold_show};
use lib::tir::{TExpr, TExprKind, TLiteral};
use lib::types::Ty;

fn lit(l: TLiteral) -> TExpr {
    TExpr { kind: TExprKind::Lit(l), ty: Ty::Unit }
}

fn paren(e: TExpr) -> TExpr {
    TExpr { kind: TExprKind::Paren(Box::new(e)), ty: Ty::Unit }
}

#[test]
fn floor_division_rounds_toward_negative_infinity() {
    assert_eq!(floor_div(7, 2), Some(3));
    assert_eq!(floor_div(-7, 2), Some(-4));
    assert_eq!(floor_div(7, -2), Some(-4));
    assert_eq!(floor_div(-7, -2), Some(3));
    assert_eq!(floor_div(6, -2), Some(-3));
}

#[test]
fn floor_modulo_takes_the_divisor_sign() {
    assert_eq!(floor_mod(7, 2), Some(1));
    assert_eq!(floor_mod(-7, 2), Some(1));
    assert_eq!(floor_mod(7, -2), Some(-1));
    assert_eq!(floor_mod(-7, -2), Some(-1));
    assert_eq!(floor_mod(6, -3), Some(0));
}

#[test]
fn trapping_divisions_decline() {
    assert_eq!(floor_div(5, 0), None);
    assert_eq!(floor_mod(5, 0), None);
    assert_eq!(floor_div(i64::MIN, -1), None);
    assert_eq!(floor_mod(i64::MIN, -1), None);
    assert_eq!(floor_div(i64::MIN, 1), Some(i64::MIN));
    assert_eq!(floor_div(i64::MIN + 1, 2), Some(-4611686018427387904));
}

#[test]
fn integer_operations_fold_without_overflow() {
    assert!(matches!(fold_int_int("+", 2, 3), Some(TLiteral::Integer(5))));
    assert!(fold_int_int("+", i64::MAX, 1).is_none());
    assert!(fold_int_int("*", i64::MIN, -1).is_none());
    assert!(matches!(fold_int_int("-", 2, 5), Some(TLiteral::Integer(-3))));
    assert!(matches!(fold_int_int("div", 7, -2), Some(TLiteral::Integer(-4))));
    assert!(matches!(fold_int_int("mod", 7, -2), Some(TLiteral::Integer(-1))));
    assert!(matches!(fold_int_int("<=", 2, 2), Some(TLiteral::Bool(true))));
    assert!(matches!(fold_int_int("/=", 2, 2), Some(TLiteral::Bool(false))));
    assert!(fold_int_int("^", 2, 2).is_none());
}

#[test]
fn boolean_operations_fold() {
    assert!(matches!(fold_bool_bool("&&", true, false), Some(TLiteral::Bool(false))));
    assert!(matches!(fold_bool_bool("||", true, false), Some(TLiteral::Bool(true))));
    assert!(matches!(fold_bool_bool("==", false, false), Some(TLiteral::Bool(true))));
    assert!(fold_bool_bool("+", true, true).is_none());
}

#[test]
fn string_concatenation_folds_through_parens() {
    let l = paren(lit(TLiteral::Str(b"ab".to_vec())));
    let r = lit(TLiteral::Str(b"cd".to_vec()));
    match try_fold_infix("<>", &l, &r) {
        Some(TLiteral::Str(s)) => assert_eq!(s, b"abcd".to_vec()),
        _ => panic!("expected a folded string"),
    }
    assert!(try_fold_infix("++", &l, &r).is_none());
}

#[test]
fn mixed_or_float_operands_do_not_fold() {
    let i = lit(TLiteral::Integer(1));
    let b = lit(TLiteral::Bool(true));
    assert!(try_fold_infix("==", &i, &b).is_none());
    let x = lit(TLiteral::Number("1.5".into()));
    let y = lit(TLiteral::Number("2.5".into()));
    assert!(try_fold_infix("+", &x, &y).is_none());
}

#[test]
fn negation_folds_except_at_min() {
    assert!(matches!(fold_negate(&TLiteral::Integer(5)), Some(TLiteral::Integer(-5))));
    assert!(fold_negate(&TLiteral::Integer(i64::MIN)).is_none());
}

#[test]
fn show_folds_small_integers_and_booleans() {
    match try_fold_show("show_Int", &lit(TLiteral::Integer(-23))) {
        Some(TLiteral::Str(s)) => assert_eq!(s, b"-23".to_vec()),
        _ => panic!("expected shown integer"),
    }
    match try_fold_show("show_Int", &lit(TLiteral::Integer(1 << 53))) {
        Some(TLiteral::Str(s)) => assert_eq!(s, b"9007199254740992".to_vec()),
        _ => panic!("expected shown integer"),
    }
    assert!(try_fold_show("show_Int", &lit(TLiteral::Integer((1 << 53) + 1))).is_none());
    match try_fold_show("show_Bool", &lit(TLiteral::Bool(false))) {
        Some(TLiteral::Str(s)) => assert_eq!(s, b"False".to_vec()),
        _ => panic!("expected shown bool"),
    }
    assert!(try_fold_show("show_Number", &lit(TLiteral::Number("1.0".into()))).is_none());
}

#[test]
fn resolved_methods_map_to_operators() {
    assert_eq!(resolved_method_to_op("eq_Int"), Some("=="));
    assert_eq!(resolved_method_to_op("ord_ge__String"), Some(">="));
    assert_eq!(resolved_method_to_op("semigroup_String"), Some("<>"));
    assert_eq!(resolved_method_to_op("eq_List"), None);
}
