use lib::names::{
    infix_operand_strictness, is_builtin_op, is_lua_keyword, lua_bare_key_ok, lua_field_assign,
    lua_field_index, lua_quoted_string, primitive_method_lua_op, sanitize_name,
};
use lib::types::Ty;

#[test]
fn sanitize_renames_and_mangles() {
    assert_eq!(sanitize_name("main"), "__run");
    assert_eq!(sanitize_name("bsIndex"), "__mll_bs[2]");
    assert_eq!(sanitize_name("end"), "end_");
    assert_eq!(sanitize_name("foo'"), "foo_prime");
    assert_eq!(sanitize_name(">>="), "_usr_gt__gt__eq_");
    assert_eq!(sanitize_name("Map.insert"), "Map_insert");
    assert_eq!(sanitize_name("until"), "until_");
    assert_eq!(sanitize_name("_tmp"), "_usr_tmp");
    assert_eq!(sanitize_name("__mll_show_arg"), "__mll_show_arg");
    assert_eq!(sanitize_name("[]"), "List_");
}

#[test]
fn keywords_and_bare_keys() {
    assert!(is_lua_keyword("elseif"));
    assert!(!is_lua_keyword("elsif"));
    assert!(lua_bare_key_ok("name_1"));
    assert!(!lua_bare_key_ok("1name"));
    assert!(!lua_bare_key_ok("end"));
    assert!(!lua_bare_key_ok(""));
    assert_eq!(lua_field_index("x"), ".x");
    assert_eq!(lua_field_index("a b"), "[\"a b\"]");
    assert_eq!(lua_field_assign("x"), "x = ");
    assert_eq!(lua_field_assign("if"), "[\"if\"] = ");
}

#[test]
fn quoted_strings_escape_every_control_byte() {
    assert_eq!(lua_quoted_string(b"a\"b\\c\n\r\t"), "\"a\\\"b\\\\c\\n\\r\\t\"");
    assert_eq!(lua_quoted_string(&[0u8, 7, 181, b'1']), "\"\\000\\007\\1811\"");
}

#[test]
fn primitive_ops_and_builtins() {
    assert_eq!(primitive_method_lua_op("eq_Int"), Some("=="));
    assert_eq!(primitive_method_lua_op("semigroup_String"), Some(".."));
    assert_eq!(primitive_method_lua_op("eq_List"), None);
    assert!(is_builtin_op("<>"));
    assert!(!is_builtin_op("^"));
}

#[test]
fn operand_strictness_table() {
    let s = Ty::Con("String".into());
    let l = Ty::List(Box::new(Ty::Con("Int".into())));
    assert_eq!(infix_operand_strictness("+", &s, &s), (true, true));
    assert_eq!(infix_operand_strictness("<>", &s, &l), (true, false));
    assert_eq!(infix_operand_strictness("&&", &s, &s), (true, false));
    assert_eq!(infix_operand_strictness("!!", &l, &s), (false, true));
    assert_eq!(infix_operand_strictness(">>=", &s, &s), (false, false));
}
