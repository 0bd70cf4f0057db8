//! Lua name and string-literal helpers.
//!
//! `sanitize_name` maps mata-ll identifiers to valid Lua names.
//! `is_lua_keyword` / `lua_bare_key_ok` decide when a field key may appear
//! bare. `lua_quoted_string` is the one canonical double-quoted Lua string
//! literal. `primitive_method_lua_op` names the native operator a resolved
//! primitive typeclass method inlines to.

use vstd::prelude::*;
use vstd::string::StringSliceAdditionalSpecFns;
use crate::text::{
    char_is_alpha, char_is_digit, char_is_word, chars_of, decimal, is_alpha, is_digit, is_ident_text,
    is_word_char, push_char, push_str, str_eq, string_of,
};

verus! {

broadcast use vstd::string::group_string_axioms;

/// The Lua reserved words.
pub open spec fn lua_keyword(s: Seq<char>) -> bool {
    s == "and"@
        || s == "break"@
        || s == "do"@
        || s == "else"@
        || s == "elseif"@
        || s == "end"@
        || s == "false"@
        || s == "for"@
        || s == "function"@
        || s == "goto"@
        || s == "if"@
        || s == "in"@
        || s == "local"@
        || s == "nil"@
        || s == "not"@
        || s == "or"@
        || s == "repeat"@
        || s == "return"@
        || s == "then"@
        || s == "true"@
        || s == "until"@
        || s == "while"@
}

/// Lua reserved words cannot be used as a bare `.field` key or `{field = …}`.
pub fn is_lua_keyword(s: &str) -> (r: bool)
    ensures
        r == lua_keyword(s@),
{
    str_eq(s, "and")
        || str_eq(s, "break")
        || str_eq(s, "do")
        || str_eq(s, "else")
        || str_eq(s, "elseif")
        || str_eq(s, "end")
        || str_eq(s, "false")
        || str_eq(s, "for")
        || str_eq(s, "function")
        || str_eq(s, "goto")
        || str_eq(s, "if")
        || str_eq(s, "in")
        || str_eq(s, "local")
        || str_eq(s, "nil")
        || str_eq(s, "not")
        || str_eq(s, "or")
        || str_eq(s, "repeat")
        || str_eq(s, "return")
        || str_eq(s, "then")
        || str_eq(s, "true")
        || str_eq(s, "until")
        || str_eq(s, "while")
}

/// A name usable as a bare Lua key: an identifier that is not a keyword.
pub open spec fn bare_key_ok(name: Seq<char>) -> bool {
    is_ident_text(name) && !lua_keyword(name)
}

/// True when `name` can appear as a bare Lua identifier key (`.name`,
/// `{name = …}`).
pub fn lua_bare_key_ok(name: &str) -> (r: bool)
    ensures
        r == bare_key_ok(name@),
{
    let cs = chars_of(name);
    if cs.len() == 0 {
        return false;
    }
    let c0 = cs[0];
    if !(char_is_alpha(c0) || c0 == '_') {
        return false;
    }
    let mut i: usize = 0;
    while i < cs.len()
        invariant
            i <= cs@.len(),
            cs@ == name@,
            forall|k: int| 0 <= k < i ==> is_word_char(#[trigger] cs@[k]),
        decreases cs@.len() - i,
    {
        if !char_is_word(cs[i]) {
            return false;
        }
        i = i + 1;
    }
    !is_lua_keyword(name)
}

/// The escape of one byte inside a double-quoted Lua literal: `\n`, `\r`,
/// `\t`, `\\`, `\"` by name, printable ASCII verbatim, every other byte as a
/// fixed-width `\ddd` decimal escape.
pub open spec fn escape_byte(b: u8) -> Seq<char> {
    if b == 10 {
        seq!['\\', 'n']
    } else if b == 13 {
        seq!['\\', 'r']
    } else if b == 9 {
        seq!['\\', 't']
    } else if b == 92 {
        seq!['\\', '\\']
    } else if b == 34 {
        seq!['\\', '"']
    } else if 0x20 <= b <= 0x7e {
        seq![b as char]
    } else {
        seq!['\\'] + three_digits(b)
    }
}

/// `b` in decimal, zero-padded to three digits.
pub open spec fn three_digits(b: u8) -> Seq<char> {
    if b < 10 {
        seq!['0', '0'] + decimal(b as nat)
    } else if b < 100 {
        seq!['0'] + decimal(b as nat)
    } else {
        decimal(b as nat)
    }
}

/// The escaped bytes, in order.
pub open spec fn escaped(bs: Seq<u8>) -> Seq<char>
    decreases bs.len(),
{
    if bs.len() == 0 {
        Seq::empty()
    } else {
        escaped(bs.drop_last()) + escape_byte(bs.last())
    }
}

/// The double-quoted Lua literal whose value is exactly the bytes `bs`.
pub open spec fn quoted(bs: Seq<u8>) -> Seq<char> {
    seq!['"'] + escaped(bs) + seq!['"']
}

fn push_escape(out: &mut String, b: u8)
    ensures
        final(out)@ == old(out)@ + escape_byte(b),
{
    if b == 10 {
        push_str(out, "\\n");
        proof { reveal_strlit("\\n"); }
    } else if b == 13 {
        push_str(out, "\\r");
        proof { reveal_strlit("\\r"); }
    } else if b == 9 {
        push_str(out, "\\t");
        proof { reveal_strlit("\\t"); }
    } else if b == 92 {
        push_str(out, "\\\\");
        proof { reveal_strlit("\\\\"); }
    } else if b == 34 {
        push_str(out, "\\\"");
        proof { reveal_strlit("\\\""); }
    } else if 0x20 <= b && b <= 0x7e {
        push_char(out, b as char);
    } else {
        push_char(out, '\\');
        if b < 10 {
            push_char(out, '0');
            push_char(out, '0');
        } else if b < 100 {
            push_char(out, '0');
        }
        let d = crate::text::decimal_string(b as u64);
        push_str(out, d.as_str());
    }
    assert(out@ =~= old(out)@ + escape_byte(b));
}

/// The canonical Lua string literal for the byte string `s`: the resulting
/// Lua string has exactly those bytes.
pub fn lua_quoted_string(s: &[u8]) -> (r: String)
    ensures
        r@ == quoted(s@),
{
    let mut out = String::new();
    push_char(&mut out, '"');
    let mut i: usize = 0;
    while i < s.len()
        invariant
            i <= s@.len(),
            out@ == seq!['"'] + escaped(s@.take(i as int)),
        decreases s@.len() - i,
    {
        push_escape(&mut out, s[i]);
        assert(s@.take(i as int + 1).drop_last() =~= s@.take(i as int));
        i = i + 1;
    }
    assert(s@.take(s@.len() as int) =~= s@);
    push_char(&mut out, '"');
    out
}

/// A bracketed Lua string-literal table key: `["na\"me"]`.
pub fn lua_key_string(name: &str) -> (r: String)
    ensures
        r@ == seq!['['] + quoted(name.spec_bytes()) + seq![']'],
{
    let mut out = String::new();
    push_char(&mut out, '[');
    let q = lua_quoted_string(name.as_bytes());
    push_str(&mut out, q.as_str());
    push_char(&mut out, ']');
    out
}

/// Suffix that reads a LuaDict field: `.name` or `["name"]`.
pub fn lua_field_index(name: &str) -> (r: String)
    ensures
        r@ == if bare_key_ok(name@) {
            seq!['.'] + name@
        } else {
            seq!['['] + quoted(name.spec_bytes()) + seq![']']
        },
{
    if lua_bare_key_ok(name) {
        let mut out = String::new();
        push_char(&mut out, '.');
        push_str(&mut out, name);
        out
    } else {
        lua_key_string(name)
    }
}

/// Assignment target inside a table constructor: `name = ` or `["name"] = `.
pub fn lua_field_assign(name: &str) -> (r: String)
    ensures
        r@ == if bare_key_ok(name@) {
            name@ + " = "@
        } else {
            seq!['['] + quoted(name.spec_bytes()) + seq![']'] + " = "@
        },
{
    let mut out = if lua_bare_key_ok(name) {
        string_of(chars_of(name).as_slice())
    } else {
        lua_key_string(name)
    };
    push_str(&mut out, " = ");
    out
}

/// Source names that compile to a differently-named runtime helper.
pub open spec fn runtime_rename(name: Seq<char>) -> Option<Seq<char>> {
    if name == "main"@ {
        Some("__run"@)
    } else if name == "return"@ {
        Some("return_"@)
    } else if name == "not"@ {
        Some("not_"@)
    } else if name == "print"@ {
        Some("print_"@)
    } else if name == "error"@ {
        Some("error_"@)
    } else if name == "exit"@ {
        Some("exit_"@)
    } else if name == "try"@ {
        Some("try_"@)
    } else if name == "catch"@ {
        Some("catch_"@)
    } else if name == "bsEmpty"@ {
        Some("__mll_bs_empty"@)
    } else if name == "bsLength"@ {
        Some("__mll_bs[1]"@)
    } else if name == "bsIndex"@ {
        Some("__mll_bs[2]"@)
    } else if name == "bsSub"@ {
        Some("__mll_bs[3]"@)
    } else if name == "bsSingleton"@ {
        Some("__mll_bs[4]"@)
    } else if name == "bsConcat"@ {
        Some("__mll_bs[5]"@)
    } else if name == "bsNull"@ {
        Some("__mll_bs[6]"@)
    } else if name == "bsHead"@ {
        Some("__mll_bs[7]"@)
    } else if name == "bsTail"@ {
        Some("__mll_bs[8]"@)
    } else if name == "bsCons"@ {
        Some("__mll_bs[9]"@)
    } else if name == "bsSnoc"@ {
        Some("__mll_bs[10]"@)
    } else if name == "bsReplicate"@ {
        Some("__mll_bs[11]"@)
    } else if name == "bsPack"@ {
        Some("__mll_bs[12]"@)
    } else if name == "bsUnpack"@ {
        Some("__mll_bs[13]"@)
    } else if name == "bsMap"@ {
        Some("__mll_bs[14]"@)
    } else if name == "bsFoldl"@ {
        Some("__mll_bs[15]"@)
    } else if name == "bsXor"@ {
        Some("__mll_bs[16]"@)
    } else if name == "bsZipWith"@ {
        Some("__mll_bs[17]"@)
    } else if name == "bsToString"@ {
        Some("__mll_bs[18]"@)
    } else if name == "bsFromString"@ {
        Some("__mll_bs[19]"@)
    } else if name == "bsGetU16LE"@ {
        Some("__mll_bs[20]"@)
    } else if name == "bsGetU32LE"@ {
        Some("__mll_bs[21]"@)
    } else if name == "bsGetI8"@ {
        Some("__mll_bs[22]"@)
    } else if name == "bsGetI16LE"@ {
        Some("__mll_bs[23]"@)
    } else if name == "bsPutI16LE"@ {
        Some("__mll_bs[24]"@)
    } else if name == "bsConcatList"@ {
        Some("__mll_bs[25]"@)
    } else if name == "runST"@ {
        Some("__mll_run_st"@)
    } else if name == "hmEmpty"@ {
        Some("hashmap_empty"@)
    } else if name == "hmInsert"@ {
        Some("hashmap_insert"@)
    } else if name == "hmLookup"@ {
        Some("hashmap_lookup"@)
    } else if name == "hmDelete"@ {
        Some("hashmap_delete"@)
    } else if name == "hmSize"@ {
        Some("hashmap_size"@)
    } else if name == "hmKeys"@ {
        Some("hashmap_keys"@)
    } else if name == "hmValues"@ {
        Some("hashmap_values"@)
    } else if name == "hmMember"@ {
        Some("hashmap_member"@)
    } else if name == "hmFromList"@ {
        Some("hashmap_fromList"@)
    } else if name == "hmToList"@ {
        Some("hashmap_toList"@)
    } else {
        None
    }
}

/// The runtime helper a source name is renamed to, if any.
pub fn runtime_rename_of(name: &str) -> (r: Option<&'static str>)
    ensures
        match r {
            Some(t) => runtime_rename(name@) == Some(t@),
            None => runtime_rename(name@) is None,
        },
{
    if str_eq(name, "main") {
        Some("__run")
    } else if str_eq(name, "return") {
        Some("return_")
    } else if str_eq(name, "not") {
        Some("not_")
    } else if str_eq(name, "print") {
        Some("print_")
    } else if str_eq(name, "error") {
        Some("error_")
    } else if str_eq(name, "exit") {
        Some("exit_")
    } else if str_eq(name, "try") {
        Some("try_")
    } else if str_eq(name, "catch") {
        Some("catch_")
    } else if str_eq(name, "bsEmpty") {
        Some("__mll_bs_empty")
    } else if str_eq(name, "bsLength") {
        Some("__mll_bs[1]")
    } else if str_eq(name, "bsIndex") {
        Some("__mll_bs[2]")
    } else if str_eq(name, "bsSub") {
        Some("__mll_bs[3]")
    } else if str_eq(name, "bsSingleton") {
        Some("__mll_bs[4]")
    } else if str_eq(name, "bsConcat") {
        Some("__mll_bs[5]")
    } else if str_eq(name, "bsNull") {
        Some("__mll_bs[6]")
    } else if str_eq(name, "bsHead") {
        Some("__mll_bs[7]")
    } else if str_eq(name, "bsTail") {
        Some("__mll_bs[8]")
    } else if str_eq(name, "bsCons") {
        Some("__mll_bs[9]")
    } else if str_eq(name, "bsSnoc") {
        Some("__mll_bs[10]")
    } else if str_eq(name, "bsReplicate") {
        Some("__mll_bs[11]")
    } else if str_eq(name, "bsPack") {
        Some("__mll_bs[12]")
    } else if str_eq(name, "bsUnpack") {
        Some("__mll_bs[13]")
    } else if str_eq(name, "bsMap") {
        Some("__mll_bs[14]")
    } else if str_eq(name, "bsFoldl") {
        Some("__mll_bs[15]")
    } else if str_eq(name, "bsXor") {
        Some("__mll_bs[16]")
    } else if str_eq(name, "bsZipWith") {
        Some("__mll_bs[17]")
    } else if str_eq(name, "bsToString") {
        Some("__mll_bs[18]")
    } else if str_eq(name, "bsFromString") {
        Some("__mll_bs[19]")
    } else if str_eq(name, "bsGetU16LE") {
        Some("__mll_bs[20]")
    } else if str_eq(name, "bsGetU32LE") {
        Some("__mll_bs[21]")
    } else if str_eq(name, "bsGetI8") {
        Some("__mll_bs[22]")
    } else if str_eq(name, "bsGetI16LE") {
        Some("__mll_bs[23]")
    } else if str_eq(name, "bsPutI16LE") {
        Some("__mll_bs[24]")
    } else if str_eq(name, "bsConcatList") {
        Some("__mll_bs[25]")
    } else if str_eq(name, "runST") {
        Some("__mll_run_st")
    } else if str_eq(name, "hmEmpty") {
        Some("hashmap_empty")
    } else if str_eq(name, "hmInsert") {
        Some("hashmap_insert")
    } else if str_eq(name, "hmLookup") {
        Some("hashmap_lookup")
    } else if str_eq(name, "hmDelete") {
        Some("hashmap_delete")
    } else if str_eq(name, "hmSize") {
        Some("hashmap_size")
    } else if str_eq(name, "hmKeys") {
        Some("hashmap_keys")
    } else if str_eq(name, "hmValues") {
        Some("hashmap_values")
    } else if str_eq(name, "hmMember") {
        Some("hashmap_member")
    } else if str_eq(name, "hmFromList") {
        Some("hashmap_fromList")
    } else if str_eq(name, "hmToList") {
        Some("hashmap_toList")
    } else {
        None
    }
}

/// How one identifier character is spelled in a Lua name.
pub open spec fn mangle_char(c: char) -> Seq<char> {
    if c == '\'' {
        "_prime"@
    } else if c == '<' {
        "_lt_"@
    } else if c == '>' {
        "_gt_"@
    } else if c == '+' {
        "_plus_"@
    } else if c == '-' {
        "_"@
    } else if c == '*' {
        "_star_"@
    } else if c == '/' {
        "_slash_"@
    } else if c == '!' {
        "_bang_"@
    } else if c == '?' {
        "_q_"@
    } else if c == '|' {
        "_pipe_"@
    } else if c == '&' {
        "_amp_"@
    } else if c == '=' {
        "_eq_"@
    } else if c == '^' {
        "_caret_"@
    } else if c == '~' {
        "_tilde_"@
    } else if c == '@' {
        "_at_"@
    } else if c == '$' {
        "_dollar_"@
    } else if c == '[' {
        "List_"@
    } else if c == ']' {
        Seq::empty()
    } else if c == '.' {
        "_"@
    } else if c == ' ' {
        "_"@
    } else if c == ':' {
        "_"@
    } else if c == '(' {
        "_"@
    } else if c == ')' {
        "_"@
    } else if c == ',' {
        "_"@
    } else {
        seq![c]
    }
}

fn push_mangled(out: &mut String, c: char)
    ensures
        final(out)@ == old(out)@ + mangle_char(c),
{
    if c == '\'' {
        push_str(out, "_prime");
    } else if c == '<' {
        push_str(out, "_lt_");
    } else if c == '>' {
        push_str(out, "_gt_");
    } else if c == '+' {
        push_str(out, "_plus_");
    } else if c == '-' {
        push_str(out, "_");
    } else if c == '*' {
        push_str(out, "_star_");
    } else if c == '/' {
        push_str(out, "_slash_");
    } else if c == '!' {
        push_str(out, "_bang_");
    } else if c == '?' {
        push_str(out, "_q_");
    } else if c == '|' {
        push_str(out, "_pipe_");
    } else if c == '&' {
        push_str(out, "_amp_");
    } else if c == '=' {
        push_str(out, "_eq_");
    } else if c == '^' {
        push_str(out, "_caret_");
    } else if c == '~' {
        push_str(out, "_tilde_");
    } else if c == '@' {
        push_str(out, "_at_");
    } else if c == '$' {
        push_str(out, "_dollar_");
    } else if c == '[' {
        push_str(out, "List_");
    } else if c == ']' {
        
    } else if c == '.' {
        push_str(out, "_");
    } else if c == ' ' {
        push_str(out, "_");
    } else if c == ':' {
        push_str(out, "_");
    } else if c == '(' {
        push_str(out, "_");
    } else if c == ')' {
        push_str(out, "_");
    } else if c == ',' {
        push_str(out, "_");
    } else {
        push_char(out, c);
    }
    assert(out@ =~= old(out)@ + mangle_char(c));
}

/// Every character of `s` mangled, in order.
pub open spec fn mangled(s: Seq<char>) -> Seq<char>
    decreases s.len(),
{
    if s.len() == 0 {
        Seq::empty()
    } else {
        mangled(s.drop_last()) + mangle_char(s.last())
    }
}

/// The keyword escape and the namespace mangling applied to a mangled
/// spelling: a keyword gets a trailing `_`; a single-leading-underscore
/// name gets the `_usr` prefix (the `__` namespace is exempt).
pub open spec fn finish_name(m: Seq<char>) -> Seq<char> {
    let k = if lua_keyword(m) { m.push('_') } else { m };
    if k.len() > 0 && k[0] == '_' && !(k.len() > 1 && k[1] == '_') {
        "_usr"@ + k
    } else {
        k
    }
}

/// The Lua spelling of a mata-ll identifier.
pub open spec fn sanitized(name: Seq<char>) -> Seq<char> {
    match runtime_rename(name) {
        Some(t) => t,
        None => if name == "end"@ || name == "then"@ || name == "do"@ || name == "in"@ || name == "or"@
            || name == "and"@ {
            name.push('_')
        } else {
            finish_name(mangled(name))
        },
    }
}

/// Map a mata-ll identifier to a valid Lua name.
pub fn sanitize_name(name: &str) -> (r: String)
    ensures
        r@ == sanitized(name@),
{
    if let Some(t) = runtime_rename_of(name) {
        return string_of(chars_of(t).as_slice());
    }
    if str_eq(name, "end") || str_eq(name, "then") || str_eq(name, "do") || str_eq(name, "in")
        || str_eq(name, "or") || str_eq(name, "and") {
        let mut s = string_of(chars_of(name).as_slice());
        push_char(&mut s, '_');
        return s;
    }
    let cs = chars_of(name);
    let mut s = String::new();
    let mut i: usize = 0;
    while i < cs.len()
        invariant
            i <= cs@.len(),
            cs@ == name@,
            s@ == mangled(cs@.take(i as int)),
        decreases cs@.len() - i,
    {
        push_mangled(&mut s, cs[i]);
        assert(cs@.take(i as int + 1).drop_last() =~= cs@.take(i as int));
        i = i + 1;
    }
    assert(cs@.take(cs@.len() as int) =~= cs@);
    if is_lua_keyword(s.as_str()) {
        push_char(&mut s, '_');
    }
    let sc = chars_of(s.as_str());
    if sc.len() > 0 && sc[0] == '_' && !(sc.len() > 1 && sc[1] == '_') {
        let mut r = String::new();
        push_str(&mut r, "_usr");
        push_str(&mut r, s.as_str());
        return r;
    }
    s
}

/// The native Lua operator a primitive typeclass method inlines to.
pub open spec fn primitive_op(name: Seq<char>) -> Option<Seq<char>> {
    if name == "eq_Int"@ || name == "eq_Number"@ || name == "eq_String"@ || name == "eq_Bool"@ || name == "eq_ByteString"@ {
        Some("=="@)
    } else if name == "ne_Int"@ || name == "ne_Number"@ || name == "ne_String"@ || name == "ne_Bool"@ || name == "ne_ByteString"@ {
        Some("~="@)
    } else if name == "ord_lt__Int"@ || name == "ord_lt__Number"@ || name == "ord_lt__String"@ || name == "ord_lt__ByteString"@ {
        Some("<"@)
    } else if name == "ord_gt__Int"@ || name == "ord_gt__Number"@ || name == "ord_gt__String"@ || name == "ord_gt__ByteString"@ {
        Some(">"@)
    } else if name == "ord_le__Int"@ || name == "ord_le__Number"@ || name == "ord_le__String"@ || name == "ord_le__ByteString"@ {
        Some("<="@)
    } else if name == "ord_ge__Int"@ || name == "ord_ge__Number"@ || name == "ord_ge__String"@ || name == "ord_ge__ByteString"@ {
        Some(">="@)
    } else if name == "semigroup_String"@ {
        Some(".."@)
    } else {
        None
    }
}

/// The native Lua operator a fully-applied resolved primitive typeclass
/// method inlines to, or `None`.
pub fn primitive_method_lua_op(name: &str) -> (r: Option<&'static str>)
    ensures
        match r {
            Some(t) => primitive_op(name@) == Some(t@),
            None => primitive_op(name@) is None,
        },
{
    if str_eq(name, "eq_Int") || str_eq(name, "eq_Number") || str_eq(name, "eq_String") || str_eq(name, "eq_Bool") || str_eq(name, "eq_ByteString") {
        Some("==")
    } else if str_eq(name, "ne_Int") || str_eq(name, "ne_Number") || str_eq(name, "ne_String") || str_eq(name, "ne_Bool") || str_eq(name, "ne_ByteString") {
        Some("~=")
    } else if str_eq(name, "ord_lt__Int") || str_eq(name, "ord_lt__Number") || str_eq(name, "ord_lt__String") || str_eq(name, "ord_lt__ByteString") {
        Some("<")
    } else if str_eq(name, "ord_gt__Int") || str_eq(name, "ord_gt__Number") || str_eq(name, "ord_gt__String") || str_eq(name, "ord_gt__ByteString") {
        Some(">")
    } else if str_eq(name, "ord_le__Int") || str_eq(name, "ord_le__Number") || str_eq(name, "ord_le__String") || str_eq(name, "ord_le__ByteString") {
        Some("<=")
    } else if str_eq(name, "ord_ge__Int") || str_eq(name, "ord_ge__Number") || str_eq(name, "ord_ge__String") || str_eq(name, "ord_ge__ByteString") {
        Some(">=")
    } else if str_eq(name, "semigroup_String") {
        Some("..")
    } else {
        None
    }
}

/// The operators the emitter treats as builtin infix operations.
pub open spec fn builtin_op(op: Seq<char>) -> bool {
    op == "+"@
        || op == "-"@
        || op == "*"@
        || op == "/"@
        || op == "%"@
        || op == "=="@
        || op == "/="@
        || op == "~="@
        || op == "<"@
        || op == ">"@
        || op == "<="@
        || op == ">="@
        || op == "++"@
        || op == "<>"@
        || op == "&&"@
        || op == "||"@
        || op == ".."@
        || op == "$"@
        || op == "."@
        || op == "div"@
        || op == "mod"@
        || op == "quot"@
        || op == "rem"@
}

/// Is `op` one of the builtin infix operators?
pub fn is_builtin_op(op: &str) -> (r: bool)
    ensures
        r == builtin_op(op@),
{
    str_eq(op, "+")
        || str_eq(op, "-")
        || str_eq(op, "*")
        || str_eq(op, "/")
        || str_eq(op, "%")
        || str_eq(op, "==")
        || str_eq(op, "/=")
        || str_eq(op, "~=")
        || str_eq(op, "<")
        || str_eq(op, ">")
        || str_eq(op, "<=")
        || str_eq(op, ">=")
        || str_eq(op, "++")
        || str_eq(op, "<>")
        || str_eq(op, "&&")
        || str_eq(op, "||")
        || str_eq(op, "..")
        || str_eq(op, "$")
        || str_eq(op, ".")
        || str_eq(op, "div")
        || str_eq(op, "mod")
        || str_eq(op, "quot")
        || str_eq(op, "rem")
}


/// Per-operand strictness of a non-control infix operator.
pub open spec fn operand_strictness(op: Seq<char>, lhs: crate::types::Ty, rhs: crate::types::Ty) -> (bool, bool) {
    if op == "+"@ || op == "-"@ || op == "*"@ || op == "/"@ || op == "%"@ || op == "=="@ || op == "/="@
        || op == "~="@ || op == "<"@ || op == ">"@ || op == "<="@ || op == ">="@ || op == "div"@ || op == "mod"@
        || op == "quot"@ || op == "rem"@ {
        (true, true)
    } else if op == "<>"@ {
        (
            crate::types::is_con(lhs, "String"@) || crate::types::is_con(lhs, "ByteString"@),
            crate::types::is_con(rhs, "String"@) || crate::types::is_con(rhs, "ByteString"@),
        )
    } else if op == "&&"@ || op == "||"@ || op == "++"@ || op == "seq"@ {
        (true, false)
    } else if op == "!!"@ {
        (false, true)
    } else {
        (false, false)
    }
}

/// Whether the emitted operator forces its left and right operand when it
/// runs: the native arithmetic/comparison operators force both; `&&`,
/// `||`, `++` and `seq` only the left; `!!` only the index; `<>` both at
/// String/ByteString; every other operator nothing.
pub fn infix_operand_strictness(op: &str, lhs_ty: &crate::types::Ty, rhs_ty: &crate::types::Ty) -> (r: (bool, bool))
    ensures
        r == operand_strictness(op@, *lhs_ty, *rhs_ty),
{
    if str_eq(op, "+") || str_eq(op, "-") || str_eq(op, "*") || str_eq(op, "/") || str_eq(op, "%")
        || str_eq(op, "==") || str_eq(op, "/=") || str_eq(op, "~=") || str_eq(op, "<") || str_eq(op, ">")
        || str_eq(op, "<=") || str_eq(op, ">=") || str_eq(op, "div") || str_eq(op, "mod") || str_eq(op, "quot")
        || str_eq(op, "rem") {
        (true, true)
    } else if str_eq(op, "<>") {
        (crate::types::is_string_like(lhs_ty), crate::types::is_string_like(rhs_ty))
    } else if str_eq(op, "&&") || str_eq(op, "||") || str_eq(op, "++") || str_eq(op, "seq") {
        (true, false)
    } else if str_eq(op, "!!") {
        (false, true)
    } else {
        (false, false)
    }
}


// ---------------------------------------------------------------------
// Operator names do not collide
// ---------------------------------------------------------------------

/// A character of an operator symbol whose Lua spelling is a word between
/// underscores.
pub open spec fn op_char(c: char) -> bool {
    c == '<' || c == '>' || c == '+' || c == '*' || c == '/' || c == '!' || c == '?' || c == '|' || c == '&' || c == '='
        || c == '^' || c == '~' || c == '@' || c == '$'
}

/// An operator name: one or more operator characters.
pub open spec fn op_name(s: Seq<char>) -> bool {
    s.len() > 0 && forall|i: int| 0 <= i < s.len() ==> op_char(#[trigger] s[i])
}

/// An operator character is spelled `_`, a word of no `_`, `_`; the
/// spellings of distinct operator characters differ in their first two
/// word letters.
proof fn lemma_op_code(c: char)
    requires
        op_char(c),
    ensures
        mangle_char(c).len() >= 3,
        mangle_char(c)[0] == '_',
        mangle_char(c)[mangle_char(c).len() - 1] == '_',
        forall|j: int| 0 < j < mangle_char(c).len() - 1 ==> #[trigger] mangle_char(c)[j] != '_',
{
    reveal_strlit("_lt_");
    reveal_strlit("_gt_");
    reveal_strlit("_plus_");
    reveal_strlit("_star_");
    reveal_strlit("_slash_");
    reveal_strlit("_bang_");
    reveal_strlit("_q_");
    reveal_strlit("_pipe_");
    reveal_strlit("_amp_");
    reveal_strlit("_eq_");
    reveal_strlit("_caret_");
    reveal_strlit("_tilde_");
    reveal_strlit("_at_");
    reveal_strlit("_dollar_");
}

/// The first two letters of an operator character's spelling.
spec fn code_key(c: char) -> (char, char) {
    if c == '<' {
        ('l', 't')
    } else if c == '>' {
        ('g', 't')
    } else if c == '+' {
        ('p', 'l')
    } else if c == '*' {
        ('s', 't')
    } else if c == '/' {
        ('s', 'l')
    } else if c == '!' {
        ('b', 'a')
    } else if c == '?' {
        ('q', '_')
    } else if c == '|' {
        ('p', 'i')
    } else if c == '&' {
        ('a', 'm')
    } else if c == '=' {
        ('e', 'q')
    } else if c == '^' {
        ('c', 'a')
    } else if c == '~' {
        ('t', 'i')
    } else if c == '@' {
        ('a', 't')
    } else if c == '$' {
        ('d', 'o')
    } else {
        (' ', ' ')
    }
}

proof fn lemma_code_key(c: char)
    requires
        op_char(c),
    ensures
        mangle_char(c)[1] == code_key(c).0,
        mangle_char(c)[2] == code_key(c).1,
{
    reveal_strlit("_lt_");
    reveal_strlit("_gt_");
    reveal_strlit("_plus_");
    reveal_strlit("_star_");
    reveal_strlit("_slash_");
    reveal_strlit("_bang_");
    reveal_strlit("_q_");
    reveal_strlit("_pipe_");
    reveal_strlit("_amp_");
    reveal_strlit("_eq_");
    reveal_strlit("_caret_");
    reveal_strlit("_tilde_");
    reveal_strlit("_at_");
    reveal_strlit("_dollar_");
}

proof fn lemma_op_code_injective(c: char, d: char)
    requires
        op_char(c),
        op_char(d),
        mangle_char(c) == mangle_char(d),
    ensures
        c == d,
{
    lemma_op_code(c);
    lemma_code_key(c);
    lemma_code_key(d);
    assert(code_key(c) == code_key(d));
}

proof fn lemma_ops_prefix(s: Seq<char>, k: int)
    requires
        forall|i: int| 0 <= i < s.len() ==> op_char(#[trigger] s[i]),
        0 <= k <= s.len(),
    ensures
        forall|i: int| 0 <= i < s.subrange(0, k).len() ==> op_char(#[trigger] s.subrange(0, k)[i]),
{
    assert forall|i: int| 0 <= i < s.subrange(0, k).len() implies op_char(#[trigger] s.subrange(0, k)[i]) by {
        assert(s.subrange(0, k)[i] == s[i]);
    }
}

proof fn lemma_mangled_nonempty(s: Seq<char>)
    requires
        s.len() > 0,
        op_char(s.last()),
    ensures
        mangled(s).len() >= 3,
{
    lemma_op_code(s.last());
}

/// Spellings of operator-character strings decode uniquely.
proof fn lemma_mangled_injective(a: Seq<char>, b: Seq<char>)
    requires
        forall|i: int| 0 <= i < a.len() ==> op_char(#[trigger] a[i]),
        forall|i: int| 0 <= i < b.len() ==> op_char(#[trigger] b[i]),
        mangled(a) == mangled(b),
    ensures
        a == b,
    decreases a.len() + b.len(),
{
    if a.len() == 0 && b.len() == 0 {
        assert(a =~= b);
    } else if a.len() == 0 {
        lemma_mangled_nonempty(b);
        assert(op_char(b[b.len() - 1]));
    } else if b.len() == 0 {
        assert(op_char(a[a.len() - 1]));
        lemma_mangled_nonempty(a);
    } else {
        let x = a.last();
        let y = b.last();
        assert(op_char(a[a.len() - 1]) && op_char(b[b.len() - 1]));
        lemma_op_code(x);
        lemma_op_code(y);
        let ca = mangle_char(x);
        let cb = mangle_char(y);
        let pa = mangled(a.drop_last());
        let pb = mangled(b.drop_last());
        let m = mangled(a);
        assert(m == pa + ca);
        assert(m == pb + cb);
        if ca.len() < cb.len() {
            let k = cb.len() - ca.len();
            assert(m[m.len() - ca.len()] == ca[0]);
            assert(m[m.len() - ca.len()] == cb[k]);
            assert(cb[k] != '_');
        } else if cb.len() < ca.len() {
            let k = ca.len() - cb.len();
            assert(m[m.len() - cb.len()] == cb[0]);
            assert(m[m.len() - cb.len()] == ca[k]);
            assert(ca[k] != '_');
        } else {
            assert forall|j: int| 0 <= j < ca.len() implies ca[j] == cb[j] by {
                assert(m[pa.len() + j] == ca[j]);
                assert(m[pb.len() + j] == cb[j]);
            }
            assert(ca =~= cb);
            lemma_op_code_injective(x, y);
            assert(pa =~= m.subrange(0, pa.len() as int));
            assert(pb =~= m.subrange(0, pb.len() as int));
            assert(pa == pb);
            assert(a.drop_last() =~= a.subrange(0, a.len() - 1));
            assert(b.drop_last() =~= b.subrange(0, b.len() - 1));
            lemma_ops_prefix(a, a.len() - 1);
            lemma_ops_prefix(b, b.len() - 1);
            lemma_mangled_injective(a.drop_last(), b.drop_last());
            assert(a =~= a.drop_last().push(x));
            assert(b =~= b.drop_last().push(y));
        }
    }
}

/// No runtime helper is named by an operator, no Lua keyword is spelled
/// with a leading `_`, and an operator name is none of the keywords
/// escaped by hand.
proof fn lemma_op_name_plain(s: Seq<char>)
    requires
        op_name(s),
    ensures
        runtime_rename(s) is None,
        !(s == "end"@ || s == "then"@ || s == "do"@ || s == "in"@ || s == "or"@ || s == "and"@),
{
    assert(op_char(s[0]));
    reveal_strlit("and");
    reveal_strlit("bsConcat");
    reveal_strlit("bsConcatList");
    reveal_strlit("bsCons");
    reveal_strlit("bsEmpty");
    reveal_strlit("bsFoldl");
    reveal_strlit("bsFromString");
    reveal_strlit("bsGetI16LE");
    reveal_strlit("bsGetI8");
    reveal_strlit("bsGetU16LE");
    reveal_strlit("bsGetU32LE");
    reveal_strlit("bsHead");
    reveal_strlit("bsIndex");
    reveal_strlit("bsLength");
    reveal_strlit("bsMap");
    reveal_strlit("bsNull");
    reveal_strlit("bsPack");
    reveal_strlit("bsPutI16LE");
    reveal_strlit("bsReplicate");
    reveal_strlit("bsSingleton");
    reveal_strlit("bsSnoc");
    reveal_strlit("bsSub");
    reveal_strlit("bsTail");
    reveal_strlit("bsToString");
    reveal_strlit("bsUnpack");
    reveal_strlit("bsXor");
    reveal_strlit("bsZipWith");
    reveal_strlit("catch");
    reveal_strlit("do");
    reveal_strlit("end");
    reveal_strlit("error");
    reveal_strlit("exit");
    reveal_strlit("hmDelete");
    reveal_strlit("hmEmpty");
    reveal_strlit("hmFromList");
    reveal_strlit("hmInsert");
    reveal_strlit("hmKeys");
    reveal_strlit("hmLookup");
    reveal_strlit("hmMember");
    reveal_strlit("hmSize");
    reveal_strlit("hmToList");
    reveal_strlit("hmValues");
    reveal_strlit("in");
    reveal_strlit("main");
    reveal_strlit("not");
    reveal_strlit("or");
    reveal_strlit("print");
    reveal_strlit("return");
    reveal_strlit("runST");
    reveal_strlit("then");
    reveal_strlit("try");
}

proof fn lemma_underscore_not_keyword(m: Seq<char>)
    requires
        m.len() > 0,
        m[0] == '_',
    ensures
        !lua_keyword(m),
{
    reveal_strlit("and");
    reveal_strlit("break");
    reveal_strlit("do");
    reveal_strlit("else");
    reveal_strlit("elseif");
    reveal_strlit("end");
    reveal_strlit("false");
    reveal_strlit("for");
    reveal_strlit("function");
    reveal_strlit("goto");
    reveal_strlit("if");
    reveal_strlit("in");
    reveal_strlit("local");
    reveal_strlit("nil");
    reveal_strlit("not");
    reveal_strlit("or");
    reveal_strlit("repeat");
    reveal_strlit("return");
    reveal_strlit("then");
    reveal_strlit("true");
    reveal_strlit("until");
    reveal_strlit("while");
}

/// The Lua spelling of an operator name is `_usr` before its characters'
/// spellings.
proof fn lemma_sanitized_op(s: Seq<char>)
    requires
        op_name(s),
    ensures
        sanitized(s) == "_usr"@ + mangled(s),
{
    lemma_op_name_plain(s);
    assert(op_char(s[s.len() - 1]));
    lemma_op_code(s.last());
    let m = mangled(s);
    let pre = mangled(s.drop_last());
    let c = mangle_char(s.last());
    assert(m == pre + c);
    if pre.len() == 0 {
        assert(m[0] == c[0]);
        assert(m[1] == c[1]);
    } else {
        assert(s.drop_last().len() > 0);
        assert(op_char(s.drop_last()[0]));
        lemma_mangled_first(s.drop_last());
        assert(m[0] == pre[0]);
        assert(m[1] == pre[1]);
    }
    assert(m[0] == '_' && m[1] != '_');
    lemma_underscore_not_keyword(m);
}

/// A nonempty operator string's spelling starts with `_` and a letter.
proof fn lemma_mangled_first(s: Seq<char>)
    requires
        s.len() > 0,
        op_char(s[0]),
    ensures
        mangled(s).len() >= 3,
        mangled(s)[0] == '_',
        mangled(s)[1] != '_',
    decreases s.len(),
{
    if s.len() == 1 {
        lemma_op_code(s[0]);
        assert(mangled(s.drop_last()) =~= Seq::<char>::empty());
        assert(mangled(s) =~= mangle_char(s[0]));
    } else {
        assert(s.drop_last()[0] == s[0]);
        lemma_mangled_first(s.drop_last());
        let pre = mangled(s.drop_last());
        assert(mangled(s) == pre + mangle_char(s.last()));
        assert(mangled(s)[0] == pre[0]);
        assert(mangled(s)[1] == pre[1]);
    }
}

/// `sanitize_name` keeps distinct operator names apart: two different user
/// operators never share a Lua name (`<=` and `>=` among them).
pub proof fn lemma_sanitize_ops_injective(a: Seq<char>, b: Seq<char>)
    requires
        op_name(a),
        op_name(b),
        a != b,
    ensures
        sanitized(a) != sanitized(b),
{
    lemma_sanitized_op(a);
    lemma_sanitized_op(b);
    if sanitized(a) == sanitized(b) {
        let u = "_usr"@;
        assert(mangled(a) =~= sanitized(a).subrange(u.len() as int, sanitized(a).len() as int));
        assert(mangled(b) =~= sanitized(b).subrange(u.len() as int, sanitized(b).len() as int));
        lemma_mangled_injective(a, b);
    }
}


// ---------------------------------------------------------------------
// Ordinary identifiers are kept
// ---------------------------------------------------------------------

proof fn lemma_mangled_word(s: Seq<char>)
    requires
        forall|i: int| 0 <= i < s.len() ==> crate::text::is_word_char(#[trigger] s[i]),
    ensures
        mangled(s) == s,
    decreases s.len(),
{
    if s.len() > 0 {
        assert forall|i: int| 0 <= i < s.drop_last().len() implies crate::text::is_word_char(#[trigger] s.drop_last()[i]) by {
            assert(s.drop_last()[i] == s[i]);
        }
        lemma_mangled_word(s.drop_last());
        assert(crate::text::is_word_char(s[s.len() - 1]));
        assert(mangle_char(s.last()) == seq![s.last()]);
        assert(s =~= s.drop_last() + seq![s.last()]);
    }
}

/// An identifier of letters, digits and `_` that Lua already accepts as it
/// stands (not a reserved word, not a runtime helper's source name, not
/// in the single-underscore namespace) keeps its spelling.
pub proof fn lemma_sanitize_keeps_identifiers(s: Seq<char>)
    requires
        s.len() > 0,
        forall|i: int| 0 <= i < s.len() ==> crate::text::is_word_char(#[trigger] s[i]),
        !lua_keyword(s),
        runtime_rename(s) is None,
        !(s[0] == '_' && !(s.len() > 1 && s[1] == '_')),
    ensures
        sanitized(s) == s,
{
    lemma_mangled_word(s);
}

} // verus!
