//! Source embedding: carry the original .mll source inside the emitted Lua
//! so the .lua file can later be recompiled without the .mll present.
//!
//! Two forms, both placed at the very top of the emitted file:
//!
//!   Comments:
//!     --[==[ MLL-EMBEDDED-SOURCE-BEGIN
//!     <source, verbatim>
//!     MLL-EMBEDDED-SOURCE-END ]==]
//!
//!   Variable:
//!     local __SOURCE_CODE = [==[
//!     <source, verbatim>]==]
//!
//! Both use Lua long brackets whose level (the number of `=` signs) is the
//! smallest level >= 1 whose closing sequence does not occur in the source.
//! Extraction is textual and byte-exact; `lemma_embed_round_trip` proves
//! that extracting an embedded block gives back the source and the mode.

use vstd::prelude::*;
use crate::text::{
    chars_of, contains, contains_chars, find_from, matches_at, occurs_at, push_char, push_repeat,
    push_str, repeat, string_of,
};

verus! {

broadcast use vstd::string::group_string_axioms;

/// How to embed the original source into the emitted Lua.
#[derive(Debug, Clone, Copy, PartialEq, Eq, Structural)]
pub enum EmbedMode {
    /// Inside a delimited Lua long-comment block.
    Comments,
    /// As a module string variable `__SOURCE_CODE`.
    Var,
}

/// Name of the exported source variable in `EmbedMode::Var`.
pub const SOURCE_VAR: &'static str = "__SOURCE_CODE";

/// `n` equal signs.
pub open spec fn eqs(n: nat) -> Seq<char> {
    repeat("="@, n)
}

/// The long-bracket closing sequence of level `n`: `]` `=`*n `]`.
pub open spec fn closer(n: nat) -> Seq<char> {
    seq![']'] + eqs(n) + seq![']']
}

/// The smallest level `>= n` whose closer does not occur in `s`.
pub open spec fn level_from(s: Seq<char>, n: nat) -> nat
    decreases s.len() + 1 - n,
{
    if n > s.len() {
        n
    } else if !contains(s, closer(n)) {
        n
    } else {
        level_from(s, n + 1)
    }
}

/// The long-bracket level used to embed `s`: the smallest whose closer
/// occurs neither in `s` nor across the end of `s` into the closer itself
/// (a source ending in `]` and that many `=` would close the block early).
pub open spec fn bracket_level(s: Seq<char>) -> nat {
    level_from(s.push(']'), 1)
}

pub open spec fn begin_word() -> Seq<char> {
    "MLL-EMBEDDED-SOURCE-BEGIN"@
}

pub open spec fn end_word() -> Seq<char> {
    "MLL-EMBEDDED-SOURCE-END"@
}

/// The opener of the comment form after its `=` run.
pub open spec fn comment_opener_tail() -> Seq<char> {
    "[ "@ + begin_word() + "\n"@
}

/// The end marker of the comment form at level `n`.
pub open spec fn comment_end_marker(n: nat) -> Seq<char> {
    "\n"@ + end_word() + " ]"@ + eqs(n) + "]"@
}

/// The head of the variable form, up to its `=` run.
pub open spec fn var_head() -> Seq<char> {
    "local __SOURCE_CODE = ["@
}

/// The embedded-source block for `s` in `mode`.
pub open spec fn embed_text(s: Seq<char>, mode: EmbedMode) -> Seq<char> {
    let eq = eqs(bracket_level(s));
    match mode {
        EmbedMode::Comments => "--["@ + eq + comment_opener_tail() + s + comment_end_marker(
            bracket_level(s),
        ) + "\n"@,
        EmbedMode::Var => var_head() + eq + "[\n"@ + s + "]"@ + eq + "]\n"@,
    }
}

// ---- extraction, over text ----

/// Number of consecutive `=` in `h` starting at `i`.
pub open spec fn eq_run(h: Seq<char>, i: int) -> nat
    decreases h.len() - i,
{
    if 0 <= i < h.len() && h[i] == '=' {
        1 + eq_run(h, i + 1)
    } else {
        0
    }
}

/// Is `p` the start of a line of `h`?
pub open spec fn at_line_start(h: Seq<char>, p: int) -> bool {
    p == 0 || (1 <= p <= h.len() && h[p - 1] == '\n')
}

/// `m` occurs in `h` at or after `from`.
pub open spec fn occurs_from(h: Seq<char>, m: Seq<char>, from: int) -> bool {
    exists|j: int| from <= j && occurs_at(h, m, j)
}

/// The first occurrence of `m` in `h` at or after `from`.
pub open spec fn first_from(h: Seq<char>, m: Seq<char>, from: int) -> int {
    choose|j: int| from <= j && occurs_at(h, m, j) && forall|k: int| from <= k < j ==> !occurs_at(h, m, k)
}

/// The source held by a comment block that starts at `p`, if one does.
#[verifier::opaque]
pub open spec fn comment_at(h: Seq<char>, p: int) -> Option<Seq<char>> {
    let lv = eq_run(h, p + 3);
    let cs = p + 3 + lv + comment_opener_tail().len();
    let m = comment_end_marker(lv);
    if occurs_at(h, "--["@, p) && at_line_start(h, p) && occurs_at(h, comment_opener_tail(), p + 3 + lv)
        && occurs_from(h, m, cs) {
        Some(h.subrange(cs, first_from(h, m, cs)))
    } else {
        None
    }
}

/// The source held by a variable block that starts at `p`, if one does.
#[verifier::opaque]
pub open spec fn var_at(h: Seq<char>, p: int) -> Option<Seq<char>> {
    let lv = eq_run(h, p + var_head().len());
    let cs = p + var_head().len() + lv + 2;
    let c = closer(lv);
    if occurs_at(h, var_head(), p) && at_line_start(h, p) && occurs_at(h, "[\n"@, p + var_head().len() + lv)
        && occurs_from(h, c, cs) {
        Some(h.subrange(cs, first_from(h, c, cs)))
    } else {
        None
    }
}

pub open spec fn has_comment(h: Seq<char>) -> bool {
    exists|p: int| 0 <= p && comment_at(h, p) is Some
}

pub open spec fn has_var(h: Seq<char>) -> bool {
    exists|p: int| 0 <= p && var_at(h, p) is Some
}

/// The earliest comment block's position.
pub open spec fn first_comment(h: Seq<char>) -> int {
    choose|p: int| 0 <= p && comment_at(h, p) is Some && forall|q: int| 0 <= q < p ==> comment_at(h, q) is None
}

/// The earliest variable block's position.
pub open spec fn first_var(h: Seq<char>) -> int {
    choose|p: int| 0 <= p && var_at(h, p) is Some && forall|q: int| 0 <= q < p ==> var_at(h, q) is None
}

/// What extraction finds in `h`: the earliest block of either form, with
/// the comment form winning a tie.
pub open spec fn extracted(h: Seq<char>) -> Option<(Seq<char>, EmbedMode)> {
    if has_comment(h) && has_var(h) {
        if first_comment(h) <= first_var(h) {
            Some((comment_at(h, first_comment(h))->0, EmbedMode::Comments))
        } else {
            Some((var_at(h, first_var(h))->0, EmbedMode::Var))
        }
    } else if has_comment(h) {
        Some((comment_at(h, first_comment(h))->0, EmbedMode::Comments))
    } else if has_var(h) {
        Some((var_at(h, first_var(h))->0, EmbedMode::Var))
    } else {
        None
    }
}

/// The diagnostic for a file without an embedded block.
pub open spec fn no_source_message() -> Seq<char> {
    "no embedded MLL source found in this file\nnote: only .lua files emitted with --embed-source comments or --embed-source var\ncarry their original source; recompile reads the source from that embedded block"@
}


// ---- the round trip ----

/// `s` ends with `t`.
pub open spec fn ends_with(s: Seq<char>, t: Seq<char>) -> bool {
    t.len() <= s.len() && s.subrange(s.len() - t.len(), s.len() as int) == t
}

proof fn lemma_eq_run_exact(h: Seq<char>, i: int, n: nat)
    requires
        0 <= i,
        i + n <= h.len(),
        forall|k: int| i <= k < i + n ==> h[k] == '=',
        i + n == h.len() || h[i + n] != '=',
    ensures
        eq_run(h, i) == n,
    decreases n,
{
    if n > 0 {
        lemma_eq_run_exact(h, i + 1, (n - 1) as nat);
    }
}

/// In `h = pre + s + post`, an occurrence of `m` that starts inside `s`
/// and ends inside `s` puts `m` inside `s`.
proof fn lemma_inside(h: Seq<char>, pre: Seq<char>, s: Seq<char>, m: Seq<char>, j: int)
    requires
        h.len() >= pre.len() + s.len(),
        h.subrange(pre.len() as int, pre.len() + s.len() as int) == s,
        pre.len() <= j,
        j + m.len() <= pre.len() + s.len(),
        occurs_at(h, m, j),
    ensures
        occurs_at(s, m, j - pre.len()),
{
    let o = j - pre.len();
    assert(s.subrange(o, o + m.len()) =~= h.subrange(j, j + m.len()));
}

/// A closer-suffixed pattern inside `s` puts the closer inside `s`.
proof fn lemma_suffix_occurs(s: Seq<char>, m: Seq<char>, c: Seq<char>, o: int)
    requires
        occurs_at(s, m, o),
        c.len() <= m.len(),
        m.subrange(m.len() - c.len(), m.len() as int) == c,
    ensures
        occurs_at(s, c, o + m.len() - c.len()),
{
    let q = o + m.len() - c.len();
    assert(s.subrange(q, q + c.len()) =~= m.subrange(m.len() - c.len(), m.len() as int));
}

proof fn lemma_marker_shape(lv: nat)
    ensures
        comment_end_marker(lv).len() == 27 + lv,
        comment_end_marker(lv)[0] == '\n',
        forall|k: int| 0 < k < comment_end_marker(lv).len() ==> comment_end_marker(lv)[k] != '\n',
        comment_end_marker(lv).subrange(25, 27 + lv as int) =~= closer(lv),
{
    reveal_strlit("\n");
    reveal_strlit(" ]");
    reveal_strlit("]");
    reveal_strlit("MLL-EMBEDDED-SOURCE-END");
    lemma_eqs(lv);
    let m = comment_end_marker(lv);
    let w = end_word();
    assert(w.len() == 23);
    assert forall|k: int| 0 <= k < 23 implies w[k] != '\n' by {
        assert(w =~= seq!['M', 'L', 'L', '-', 'E', 'M', 'B', 'E', 'D', 'D', 'E', 'D', '-', 'S', 'O', 'U', 'R', 'C', 'E', '-', 'E', 'N', 'D']);
    }
    assert forall|k: int| 0 < k < m.len() implies m[k] != '\n' by {
        if k <= 23 {
            assert(m[k] == w[k - 1]);
        }
    }
}

proof fn lemma_comment_layout(s: Seq<char>, t: Seq<char>)
    ensures
        ({
            let lv = bracket_level(s);
            let h = (embed_text(s, EmbedMode::Comments) + t);
            let pre = "--["@ + eqs(lv) + comment_opener_tail();
            &&& h =~= pre + s + comment_end_marker(lv) + "\n"@ + t
            &&& occurs_at(h, "--["@, 0)
            &&& eq_run(h, 3) == lv
            &&& occurs_at(h, comment_opener_tail(), 3 + lv as int)
            &&& pre.len() == 3 + lv + comment_opener_tail().len()
        }),
{
    reveal_strlit("--[");
    reveal_strlit("[ ");
    reveal_strlit("\n");
    let lv = bracket_level(s);
    lemma_eqs(lv);
    let ot = comment_opener_tail();
    let h = (embed_text(s, EmbedMode::Comments) + t);
    let pre = "--["@ + eqs(lv) + ot;
    assert(h =~= pre + s + comment_end_marker(lv) + "\n"@ + t);
    assert(h.subrange(0, 3) =~= "--["@);
    assert(ot[0] == '[');
    lemma_eq_run_exact(h, 3, lv);
    assert(h.subrange(3 + lv as int, 3 + lv + ot.len() as int) =~= ot);
}

proof fn lemma_comment_round_trip(s: Seq<char>, t: Seq<char>)
    ensures
        comment_at((embed_text(s, EmbedMode::Comments) + t), 0) == Some(s),
{
    reveal(comment_at);
    let lv = bracket_level(s);
    lemma_bracket_level(s);
    lemma_comment_layout(s, t);
    lemma_marker_shape(lv);
    let ot = comment_opener_tail();
    let m = comment_end_marker(lv);
    let h = (embed_text(s, EmbedMode::Comments) + t);
    let pre = "--["@ + eqs(lv) + ot;
    let cs = pre.len() as int;
    let e = cs + s.len();
    assert(h.subrange(e, e + m.len()) =~= m);
    assert(h.subrange(cs, e) =~= s);
    let c = closer(lv);
    assert(m.subrange(m.len() - c.len(), m.len() as int) =~= c);
    assert forall|j: int| cs <= j < e implies !occurs_at(h, m, j) by {
        if occurs_at(h, m, j) {
            if j + m.len() <= e {
                lemma_inside(h, pre, s, m, j);
                lemma_suffix_occurs(s, m, c, j - cs);
            } else {
                let k = e - j;
                assert(h.subrange(j, j + m.len())[k] == h[e]);
            }
        }
    }
    lemma_first_from_is(h, m, cs, e);
}

proof fn lemma_var_round_trip(s: Seq<char>, t: Seq<char>)
    ensures
        var_at((embed_text(s, EmbedMode::Var) + t), 0) == Some(s),
{
    reveal(var_at);
    reveal_strlit("\n");
    reveal_strlit("local __SOURCE_CODE = [");
    reveal_strlit("[\n");
    reveal_strlit("]");
    reveal_strlit("]\n");
    let lv = bracket_level(s);
    lemma_bracket_level(s);
    lemma_eqs(lv);
    let eq = eqs(lv);
    let hd = var_head();
    let h = (embed_text(s, EmbedMode::Var) + t);
    let pre = hd + eq + "[\n"@;
    let c = closer(lv);
    assert(h =~= pre + s + c + "\n"@ + t);
    assert(h.subrange(0, hd.len() as int) =~= hd);
    lemma_eq_run_exact(h, hd.len() as int, lv);
    assert(h.subrange(hd.len() + lv as int, hd.len() + lv + 2 as int) =~= "[\n"@);
    let cs = pre.len() as int;
    let e = cs + s.len();
    assert(h.subrange(e, e + c.len()) =~= c);
    assert(h.subrange(cs, e) =~= s);
    assert(c.subrange(0, c.len() as int) =~= c);
    assert forall|j: int| cs <= j < e implies !occurs_at(h, c, j) by {
        if occurs_at(h, c, j) {
            if j + c.len() <= e {
                lemma_inside(h, pre, s, c, j);
            } else {
                let k = e - j;
                assert(0 < k < c.len());
                assert(h.subrange(j, j + c.len())[k] == h[e]);
                assert(h[e] == ']');
                if k <= lv {
                    assert(c[k] == '=');
                } else {
                    assert(k == lv + 1);
                    let w = seq![']'] + eq;
                    assert(j == e - w.len());
                    assert forall|i: int| 0 <= i < w.len() implies s.subrange(s.len() - w.len(), s.len() as int)[i]
                        == w[i] by {
                        assert(h.subrange(j, j + c.len())[i] == c[i]);
                        assert(c[i] == w[i]);
                    }
                    assert(s.subrange(s.len() - w.len(), s.len() as int) =~= w);
                }
            }
        }
    }
    lemma_first_from_is(h, c, cs, e);
}

/// A satisfiable predicate on the naturals has a least witness.
proof fn lemma_least(f: spec_fn(int) -> bool, p: int)
    requires
        0 <= p,
        f(p),
    ensures
        exists|m: int| 0 <= m && #[trigger] f(m) && forall|q: int| 0 <= q < m ==> !#[trigger] f(q),
    decreases p,
{
    if exists|q: int| 0 <= q < p && #[trigger] f(q) {
        let q = choose|q: int| 0 <= q < p && #[trigger] f(q);
        lemma_least(f, q);
    } else {
        assert(0 <= p && f(p) && forall|q: int| 0 <= q < p ==> !#[trigger] f(q));
    }
}

/// `first_comment` is the least comment-block position when one exists.
pub proof fn lemma_first_comment(h: Seq<char>)
    requires
        has_comment(h),
    ensures
        0 <= first_comment(h),
        comment_at(h, first_comment(h)) is Some,
        forall|q: int| 0 <= q < first_comment(h) ==> comment_at(h, q) is None,
{
    let p = choose|p: int| 0 <= p && comment_at(h, p) is Some;
    let f = |q: int| comment_at(h, q) is Some;
    lemma_least(f, p);
    let m = choose|m: int| 0 <= m && #[trigger] f(m) && forall|q: int| 0 <= q < m ==> !#[trigger] f(q);
    assert(comment_at(h, m) is Some);
    assert forall|q: int| 0 <= q < m implies comment_at(h, q) is None by {
        assert(!f(q));
    }
}

/// `first_var` is the least variable-block position when one exists.
pub proof fn lemma_first_var(h: Seq<char>)
    requires
        has_var(h),
    ensures
        0 <= first_var(h),
        var_at(h, first_var(h)) is Some,
        forall|q: int| 0 <= q < first_var(h) ==> var_at(h, q) is None,
{
    let p = choose|p: int| 0 <= p && var_at(h, p) is Some;
    let f = |q: int| var_at(h, q) is Some;
    lemma_least(f, p);
    let m = choose|m: int| 0 <= m && #[trigger] f(m) && forall|q: int| 0 <= q < m ==> !#[trigger] f(q);
    assert(var_at(h, m) is Some);
    assert forall|q: int| 0 <= q < m implies var_at(h, q) is None by {
        assert(!f(q));
    }
}

/// Round trip: extracting from text that begins with the block
/// `embed_block` renders gives back its source, byte for byte, and the mode
/// it was embedded in, whatever follows the block (marker lookalikes
/// included): the earliest block wins and nothing in the source ends it
/// early.
pub proof fn lemma_embed_suffix_round_trip(s: Seq<char>, mode: EmbedMode, t: Seq<char>)
    ensures
        extracted(embed_text(s, mode) + t) == Some((s, mode)),
{
    let h = embed_text(s, mode) + t;
    match mode {
        EmbedMode::Comments => {
            lemma_comment_round_trip(s, t);
            assert(has_comment(h));
            lemma_first_comment(h);
            if has_var(h) {
                lemma_first_var(h);
            }
        },
        EmbedMode::Var => {
            lemma_var_round_trip(s, t);
            assert(has_var(h));
            lemma_first_var(h);
            reveal_strlit("local __SOURCE_CODE = [");
            reveal_strlit("--[");
            assert(h[0] == 'l');
            assert(h.subrange(0, 3)[0] == h[0]);
            assert(!occurs_at(h, "--["@, 0));
            lemma_comment_needs_dash(h, 0);
            if has_comment(h) {
                lemma_first_comment(h);
            }
        },
    }
}

/// Round trip: extracting the block `embed_block` renders gives back any
/// source, byte for byte, and the mode it was embedded in.
pub proof fn lemma_embed_round_trip(s: Seq<char>, mode: EmbedMode)
    ensures
        extracted(embed_text(s, mode)) == Some((s, mode)),
{
    lemma_embed_suffix_round_trip(s, mode, Seq::empty());
    assert(embed_text(s, mode) + Seq::<char>::empty() =~= embed_text(s, mode));
}

// ---- executable side ----

proof fn lemma_comment_needs_dash(h: Seq<char>, q: int)
    requires
        !occurs_at(h, "--["@, q),
    ensures
        comment_at(h, q) is None,
{
    reveal(comment_at);
}

proof fn lemma_var_needs_head(h: Seq<char>, q: int)
    requires
        !occurs_at(h, var_head(), q),
    ensures
        var_at(h, q) is None,
{
    reveal(var_at);
}

proof fn lemma_eqs(n: nat)
    ensures
        eqs(n) =~= Seq::new(n, |i: int| '='),
    decreases n,
{
    reveal_strlit("=");
    if n > 0 {
        lemma_eqs((n - 1) as nat);
    }
}

/// A closer longer than the text cannot occur in it.
proof fn lemma_long_closer_absent(s: Seq<char>, n: nat)
    requires
        n > s.len(),
    ensures
        !contains(s, closer(n)),
{
    lemma_eqs(n);
    assert forall|i: int| !occurs_at(s, closer(n), i) by {
        assert(closer(n).len() == n + 2);
    }
}

proof fn lemma_level_from(s: Seq<char>, n: nat)
    requires
        n >= 1,
    ensures
        level_from(s, n) >= n,
        !contains(s, closer(level_from(s, n))),
    decreases s.len() + 1 - n,
{
    if n > s.len() {
        lemma_long_closer_absent(s, n);
    } else if !contains(s, closer(n)) {
    } else {
        lemma_level_from(s, n + 1);
    }
}

/// The level's defining facts: at least 1, its closer is absent, and the
/// source does not end in the closer's first part.
pub proof fn lemma_bracket_level(s: Seq<char>)
    ensures
        bracket_level(s) >= 1,
        !contains(s, closer(bracket_level(s))),
        !ends_with(s, seq![']'] + eqs(bracket_level(s))),
{
    let t = s.push(']');
    lemma_level_from(t, 1);
    let lv = bracket_level(s);
    let c = closer(lv);
    if contains(s, c) {
        let i = choose|i: int| occurs_at(s, c, i);
        assert(t.subrange(i, i + c.len()) =~= s.subrange(i, i + c.len()));
        assert(occurs_at(t, c, i));
    }
    let w = seq![']'] + eqs(lv);
    if ends_with(s, w) {
        let i = s.len() - w.len();
        assert(c =~= w.push(']'));
        assert(t.subrange(i, i + c.len()) =~= s.subrange(i, s.len() as int).push(']'));
        assert(occurs_at(t, c, i));
    }
}

/// `a` followed by the characters of `b`.
fn cat(a: Vec<char>, b: &str) -> (r: Vec<char>)
    ensures
        r@ == a@ + b@,
{
    let mut r = a;
    let bv = chars_of(b);
    let mut i: usize = 0;
    while i < bv.len()
        invariant
            i <= bv@.len(),
            bv@ == b@,
            r@ == a@ + bv@.take(i as int),
        decreases bv@.len() - i,
    {
        r.push(bv[i]);
        assert(bv@.take(i as int + 1) =~= bv@.take(i as int).push(bv@[i as int]));
        i = i + 1;
    }
    assert(bv@.take(bv@.len() as int) =~= bv@);
    r
}

/// `n` equal signs.
fn eq_chars(n: usize) -> (r: Vec<char>)
    ensures
        r@ == eqs(n as nat),
{
    let mut r: Vec<char> = Vec::new();
    let mut i: usize = 0;
    while i < n
        invariant
            i <= n,
            r@ =~= Seq::new(i as nat, |k: int| '='),
        decreases n - i,
    {
        r.push('=');
        i = i + 1;
    }
    proof {
        lemma_eqs(n as nat);
    }
    r
}

fn append_chars(a: Vec<char>, b: &Vec<char>) -> (r: Vec<char>)
    ensures
        r@ == a@ + b@,
{
    let mut r = a;
    let mut i: usize = 0;
    while i < b.len()
        invariant
            i <= b@.len(),
            r@ == a@ + b@.take(i as int),
        decreases b@.len() - i,
    {
        r.push(b[i]);
        assert(b@.take(i as int + 1) =~= b@.take(i as int).push(b@[i as int]));
        i = i + 1;
    }
    assert(b@.take(b@.len() as int) =~= b@);
    r
}

/// The closer of level `n`.
fn closer_chars(n: usize) -> (r: Vec<char>)
    ensures
        r@ == closer(n as nat),
{
    let mut r: Vec<char> = Vec::new();
    r.push(']');
    let e = eq_chars(n);
    let mut r = append_chars(r, &e);
    r.push(']');
    assert(r@ =~= closer(n as nat));
    r
}

/// Smallest level >= 1 whose closer does not occur in `source`.
fn level_of(source: &Vec<char>) -> (n: usize)
    ensures
        n == bracket_level(source@),
        n >= 1,
{
    let mut t: Vec<char> = Vec::new();
    let mut k: usize = 0;
    while k < source.len()
        invariant
            k <= source@.len(),
            t@ == source@.take(k as int),
        decreases source@.len() - k,
    {
        t.push(source[k]);
        assert(source@.take(k as int + 1) =~= source@.take(k as int).push(source@[k as int]));
        k = k + 1;
    }
    assert(source@.take(source@.len() as int) =~= source@);
    t.push(']');
    proof {
        lemma_level_from(t@, 1);
    }
    let mut n: usize = 1;
    while n <= t.len()
        invariant
            t@ == source@.push(']'),
            1 <= n <= t@.len() + 1,
            level_from(t@, n as nat) == bracket_level(source@),
        decreases t@.len() + 1 - n,
    {
        let c = closer_chars(n);
        if !contains_chars(&t, &c) {
            return n;
        }
        proof {
            lemma_eqs(n as nat);
            let i = choose|i: int| occurs_at(t@, c@, i);
            assert(c@.len() == n + 2);
        }
        n = n + 1;
    }
    n
}

/// Render the embedded-source block for `source` in `mode`.
pub fn embed_block(source: &str, mode: EmbedMode) -> (r: String)
    ensures
        r@ == embed_text(source@, mode),
{
    let sv = chars_of(source);
    let level = level_of(&sv);
    let mut out = String::new();
    match mode {
        EmbedMode::Comments => {
            push_str(&mut out, "--[");
            push_repeat(&mut out, "=", level);
            push_str(&mut out, "[ ");
            push_str(&mut out, "MLL-EMBEDDED-SOURCE-BEGIN");
            push_str(&mut out, "\n");
            push_str(&mut out, source);
            push_str(&mut out, "\n");
            push_str(&mut out, "MLL-EMBEDDED-SOURCE-END");
            push_str(&mut out, " ]");
            push_repeat(&mut out, "=", level);
            push_str(&mut out, "]");
            push_str(&mut out, "\n");
        },
        EmbedMode::Var => {
            push_str(&mut out, "local __SOURCE_CODE = [");
            push_repeat(&mut out, "=", level);
            push_str(&mut out, "[\n");
            push_str(&mut out, source);
            push_str(&mut out, "]");
            push_repeat(&mut out, "=", level);
            push_str(&mut out, "]\n");
        },
    }
    assert(out@ =~= embed_text(source@, mode));
    out
}

/// Number of consecutive `=` in `h` from `i`.
fn count_eq(h: &Vec<char>, i: usize) -> (r: usize)
    ensures
        r as nat == eq_run(h@, i as int),
        i + r <= h@.len() || (i > h@.len() && r == 0),
{
    let mut k = i;
    while k < h.len() && h[k] == '='
        invariant
            i <= k,
            k <= h@.len() || k == i,
            eq_run(h@, i as int) == (k - i) + eq_run(h@, k as int),
        decreases h@.len() - k,
    {
        k = k + 1;
    }
    k - i
}

fn line_start(h: &Vec<char>, p: usize) -> (r: bool)
    ensures
        r == at_line_start(h@, p as int),
{
    p == 0 || (p <= h.len() && h[p - 1] == '\n')
}

proof fn lemma_first_from_is(h: Seq<char>, m: Seq<char>, from: int, p: int)
    requires
        from <= p,
        occurs_at(h, m, p),
        forall|j: int| from <= j < p ==> !occurs_at(h, m, j),
    ensures
        occurs_from(h, m, from),
        first_from(h, m, from) == p,
{
    let j = first_from(h, m, from);
    assert(from <= j && occurs_at(h, m, j) && forall|k: int| from <= k < j ==> !occurs_at(h, m, k));
    if j < p {
    } else if p < j {
    }
}

/// The subrange `[a, b)` of `h`.
fn slice_chars(h: &Vec<char>, a: usize, b: usize) -> (r: Vec<char>)
    requires
        a <= b <= h@.len(),
    ensures
        r@ == h@.subrange(a as int, b as int),
{
    let mut r: Vec<char> = Vec::new();
    let mut i = a;
    while i < b
        invariant
            a <= i <= b,
            b <= h@.len(),
            r@ == h@.subrange(a as int, i as int),
        decreases b - i,
    {
        r.push(h[i]);
        assert(h@.subrange(a as int, i as int + 1) =~= h@.subrange(a as int, i as int).push(h@[i as int]));
        i = i + 1;
    }
    r
}

/// The comment block starting at `p`, if one does.
fn comment_block_at(h: &Vec<char>, p: usize) -> (r: Option<Vec<char>>)
    ensures
        match r {
            Some(c) => comment_at(h@, p as int) == Some(c@),
            None => comment_at(h@, p as int) is None,
        },
{
    reveal(comment_at);
    proof { reveal_strlit("--["); }
    let dash = chars_of("--[");
    if !matches_at(h, &dash, p) || !line_start(h, p) {
        return None;
    }
    assert(dash@.len() == 3);
    assert(p + 3 <= h@.len());
    assert(h@.len() == h.len());
    let lv = count_eq(h, p + 3);
    let tail = cat(cat(chars_of("[ "), "MLL-EMBEDDED-SOURCE-BEGIN"), "\n");
    assert(tail@ =~= comment_opener_tail());
    if !matches_at(h, &tail, p + 3 + lv) {
        return None;
    }
    let cs = p + 3 + lv + tail.len();
    let marker = cat(append_chars(cat(cat(chars_of("\n"), "MLL-EMBEDDED-SOURCE-END"), " ]"), &eq_chars(lv)), "]");
    assert(marker@ =~= comment_end_marker(lv as nat));
    match find_from(h, &marker, cs) {
        Some(end) => {
            proof {
                lemma_first_from_is(h@, marker@, cs as int, end as int);
            }
            Some(slice_chars(h, cs, end))
        },
        None => None,
    }
}

/// The variable block starting at `p`, if one does.
fn var_block_at(h: &Vec<char>, p: usize) -> (r: Option<Vec<char>>)
    ensures
        match r {
            Some(c) => var_at(h@, p as int) == Some(c@),
            None => var_at(h@, p as int) is None,
        },
{
    reveal(var_at);
    proof { reveal_strlit("[\n"); }
    let head = chars_of("local __SOURCE_CODE = [");
    if !matches_at(h, &head, p) || !line_start(h, p) {
        return None;
    }
    proof { reveal_strlit("local __SOURCE_CODE = ["); }
    assert(p + head@.len() <= h@.len());
    assert(h@.len() == h.len());
    let lv = count_eq(h, p + head.len());
    let open = chars_of("[\n");
    if !matches_at(h, &open, p + head.len() + lv) {
        return None;
    }
    let cs = p + head.len() + lv + 2;
    let c = closer_chars(lv);
    match find_from(h, &c, cs) {
        Some(end) => {
            proof {
                lemma_first_from_is(h@, c@, cs as int, end as int);
            }
            Some(slice_chars(h, cs, end))
        },
        None => None,
    }
}

/// The earliest comment block: its position and the source it holds.
fn find_comment_block(h: &Vec<char>) -> (r: Option<(usize, Vec<char>)>)
    ensures
        match r {
            Some((p, c)) => has_comment(h@) && first_comment(h@) == p && comment_at(h@, p as int) == Some(c@),
            None => !has_comment(h@),
        },
{
    let dash = chars_of("--[");
    let mut search: usize = 0;
    while search <= h.len()
        invariant
            dash@ == "--["@,
            forall|q: int| 0 <= q < search ==> comment_at(h@, q) is None,
        decreases h@.len() + 1 - search,
    {
        match find_from(h, &dash, search) {
            None => {
                assert forall|q: int| 0 <= q implies comment_at(h@, q) is None by {
                    if q >= search {
                        lemma_comment_needs_dash(h@, q);
                    }
                }
                return None;
            },
            Some(start) => {
                match comment_block_at(h, start) {
                    Some(c) => {
                        proof {
                            assert forall|q: int| 0 <= q < start implies comment_at(h@, q) is None by {
                                if q >= search {
                                    lemma_comment_needs_dash(h@, q);
                                }
                            }
                            let f = first_comment(h@);
                            assert(comment_at(h@, start as int) is Some);
                            assert(has_comment(h@));
                            if f < start {
                            } else if f > start {
                            }
                        }
                        return Some((start, c));
                    },
                    None => {
                        proof {
                            reveal_strlit("--[");
                            assert(start + dash@.len() <= h@.len());
                            assert(h@.len() == h.len());
                            assert forall|q: int| 0 <= q < start + 1 implies comment_at(h@, q) is None by {
                                if search <= q < start {
                                    lemma_comment_needs_dash(h@, q);
                                }
                            }
                        }
                        search = start + 1;
                    },
                }
            },
        }
    }
    assert forall|q: int| 0 <= q implies comment_at(h@, q) is None by {
        if q >= search {
            lemma_comment_needs_dash(h@, q);
        }
    }
    None
}

/// The earliest variable block: its position and the source it holds.
fn find_var_block(h: &Vec<char>) -> (r: Option<(usize, Vec<char>)>)
    ensures
        match r {
            Some((p, c)) => has_var(h@) && first_var(h@) == p && var_at(h@, p as int) == Some(c@),
            None => !has_var(h@),
        },
{
    let head = chars_of("local __SOURCE_CODE = [");
    let mut search: usize = 0;
    while search <= h.len()
        invariant
            head@ == var_head(),
            forall|q: int| 0 <= q < search ==> var_at(h@, q) is None,
        decreases h@.len() + 1 - search,
    {
        match find_from(h, &head, search) {
            None => {
                assert forall|q: int| 0 <= q implies var_at(h@, q) is None by {
                    if q >= search {
                        lemma_var_needs_head(h@, q);
                    }
                }
                return None;
            },
            Some(start) => {
                match var_block_at(h, start) {
                    Some(c) => {
                        proof {
                            assert forall|q: int| 0 <= q < start implies var_at(h@, q) is None by {
                                if q >= search {
                                    lemma_var_needs_head(h@, q);
                                }
                            }
                            let f = first_var(h@);
                            assert(var_at(h@, start as int) is Some);
                            assert(has_var(h@));
                            if f < start {
                            } else if f > start {
                            }
                        }
                        return Some((start, c));
                    },
                    None => {
                        proof {
                            reveal_strlit("local __SOURCE_CODE = [");
                            assert(start + head@.len() <= h@.len());
                            assert(h@.len() == h.len());
                            assert forall|q: int| 0 <= q < start + 1 implies var_at(h@, q) is None by {
                                if search <= q < start {
                                    lemma_var_needs_head(h@, q);
                                }
                            }
                        }
                        search = start + 1;
                    },
                }
            },
        }
    }
    assert forall|q: int| 0 <= q implies var_at(h@, q) is None by {
        if q >= search {
            lemma_var_needs_head(h@, q);
        }
    }
    None
}

/// Locate the embedded source in previously emitted Lua and return it
/// byte-exactly, together with the embedding mode it was found in. When
/// both forms are present the earliest wins.
pub fn extract_source(lua: &str) -> (r: Result<(String, EmbedMode), String>)
    ensures
        match r {
            Ok((s, m)) => extracted(lua@) == Some((s@, m)),
            Err(e) => extracted(lua@) is None && e@ == no_source_message(),
        },
{
    let h = chars_of(lua);
    let comment = find_comment_block(&h);
    let var = find_var_block(&h);
    match (comment, var) {
        (Some((cp, c)), Some((vp, v))) => {
            if cp <= vp {
                Ok((string_of(c.as_slice()), EmbedMode::Comments))
            } else {
                Ok((string_of(v.as_slice()), EmbedMode::Var))
            }
        },
        (Some((_, c)), None) => Ok((string_of(c.as_slice()), EmbedMode::Comments)),
        (None, Some((_, v))) => Ok((string_of(v.as_slice()), EmbedMode::Var)),
        (None, None) => Err(
            String::from_str(
                "no embedded MLL source found in this file\nnote: only .lua files emitted with --embed-source comments or --embed-source var\ncarry their original source; recompile reads the source from that embedded block",
            ),
        ),
    }
}

} // verus!
