//! Identifier tokens of rendered Lua text: the maximal runs of
//! `[A-Za-z0-9_]` that do not start with a digit. Raw fragments are
//! rendered verbatim, so an identifier hidden in one is a token like any
//! other — the conservative reading every pass relies on.

use vstd::prelude::*;
use crate::text::{is_ident_text, is_word_char, occurs_at, chars_of, matches_at, char_is_word, char_is_digit};

verus! {

/// `w` is a whole token of `t` at position `i`.
pub open spec fn token_at(t: Seq<char>, w: Seq<char>, i: int) -> bool {
    &&& is_ident_text(w)
    &&& occurs_at(t, w, i)
    &&& (i == 0 || !is_word_char(t[i - 1]))
    &&& (i + w.len() == t.len() || !is_word_char(t[i + w.len()]))
}

/// `w` is one of the tokens of `t`.
pub open spec fn has_token(t: Seq<char>, w: Seq<char>) -> bool {
    exists|i: int| token_at(t, w, i)
}

/// A token is no longer than the text holding it.
pub proof fn lemma_token_fits(t: Seq<char>, w: Seq<char>)
    requires
        has_token(t, w),
    ensures
        w.len() <= t.len(),
{
    let i = choose|i: int| token_at(t, w, i);
}

/// Is `w` a plain identifier?
pub fn ident_chars(w: &Vec<char>) -> (r: bool)
    ensures
        r == is_ident_text(w@),
{
    if w.len() == 0 || char_is_digit(w[0]) {
        return false;
    }
    let mut i: usize = 0;
    while i < w.len()
        invariant
            i <= w@.len(),
            forall|j: int| 0 <= j < i ==> is_word_char(#[trigger] w@[j]),
        decreases w@.len() - i,
    {
        if !char_is_word(w[i]) {
            return false;
        }
        i = i + 1;
    }
    true
}

/// Is `s` a plain identifier?
pub fn is_plain_ident(s: &str) -> (r: bool)
    ensures
        r == is_ident_text(s@),
{
    let v = chars_of(s);
    ident_chars(&v)
}

/// Is `w` a token of `t`?
pub fn chars_have_token(t: &Vec<char>, w: &Vec<char>) -> (r: bool)
    ensures
        r == has_token(t@, w@),
{
    if !ident_chars(w) || w.len() > t.len() {
        proof {
            if has_token(t@, w@) {
                lemma_token_fits(t@, w@);
            }
        }
        return false;
    }
    let tl = t.len();
    let last = tl - w.len();
    let mut i: usize = 0;
    while i <= last
        invariant
            is_ident_text(w@),
            tl == t@.len(),
            tl <= usize::MAX,
            w@.len() <= t@.len(),
            last == t@.len() - w@.len(),
            i <= last + 1,
            forall|j: int| 0 <= j < i ==> !token_at(t@, w@, j),
        decreases last + 1 - i,
    {
        if matches_at(t, w, i) {
            let before_ok = i == 0 || !char_is_word(t[i - 1]);
            let after_ok = i + w.len() == t.len() || !char_is_word(t[i + w.len()]);
            if before_ok && after_ok {
                assert(token_at(t@, w@, i as int));
                return true;
            }
        }
        i = i + 1;
    }
    proof {
        assert forall|j: int| !token_at(t@, w@, j) by {
            if token_at(t@, w@, j) {
                assert(j <= last);
            }
        }
    }
    false
}

/// Is `w` a token of `t`?
pub fn str_has_token(t: &str, w: &str) -> (r: bool)
    ensures
        r == has_token(t@, w@),
{
    let tv = chars_of(t);
    let wv = chars_of(w);
    chars_have_token(&tv, &wv)
}

/// Some name of `names` is a token of `t`.
pub open spec fn mentions_any(t: Seq<char>, names: Seq<Seq<char>>) -> bool {
    exists|j: int| 0 <= j < names.len() && has_token(t, #[trigger] names[j])
}

/// Does `t` mention any of `names` as a token?
pub fn text_mentions(t: &str, names: &Vec<String>) -> (r: bool)
    ensures
        r == mentions_any(t@, crate::text::views(names@)),
{
    let tv = chars_of(t);
    let mut j: usize = 0;
    while j < names.len()
        invariant
            j <= names@.len(),
            tv@ == t@,
            forall|k: int| 0 <= k < j ==> !has_token(t@, #[trigger] names@[k]@),
        decreases names@.len() - j,
    {
        let wv = chars_of(names[j].as_str());
        if chars_have_token(&tv, &wv) {
            assert(crate::text::views(names@)[j as int] == names@[j as int]@);
            return true;
        }
        j = j + 1;
    }
    proof {
        assert forall|k: int| 0 <= k < names@.len() implies !has_token(t@, #[trigger] crate::text::views(names@)[k]) by {
            assert(crate::text::views(names@)[k] == names@[k]@);
        }
    }
    false
}

} // verus!
