//! The runtime prelude's on-demand selection.
//!
//! The prelude text is split into top-level definition chunks; only the
//! chunks that provide a prelude name the generated body mentions are
//! emitted, closed over the names those chunks mention in turn, in prelude
//! order. Mentions are read from raw text (comments and strings included),
//! so the selection can only be larger than needed: every prelude name the
//! body or an emitted chunk mentions is provided by an emitted chunk.

use vstd::prelude::*;
use crate::text::{is_word_char, is_digit, is_ident_text, char_is_word, char_is_digit, chars_of, string_of, seq_eq};
use crate::passes::{trim_start, trim_end, split_commas, char_is_ws, trimmed};

verus! {

broadcast use vstd::string::group_string_axioms;

// ---------------------------------------------------------------------
// Words and lines
// ---------------------------------------------------------------------

/// Every maximal `[A-Za-z0-9_]` run of `s`, in order.
pub open spec fn idents(s: Seq<char>) -> Seq<Seq<char>>
    decreases s.len(),
{
    if s.len() == 0 {
        Seq::empty()
    } else {
        let p = idents(s.drop_last());
        let c = s.last();
        if !is_word_char(c) {
            p
        } else if s.len() >= 2 && is_word_char(s[s.len() - 2]) {
            p.drop_last().push(p.last().push(c))
        } else {
            p.push(seq![c])
        }
    }
}

pub open spec fn strip_cr(l: Seq<char>) -> Seq<char> {
    if l.len() > 0 && l.last() == '\r' { l.drop_last() } else { l }
}

/// The finished lines of `s` and the unfinished last one.
pub open spec fn line_state(s: Seq<char>) -> (Seq<Seq<char>>, Seq<char>)
    decreases s.len(),
{
    if s.len() == 0 {
        (Seq::empty(), Seq::empty())
    } else {
        let (done, cur) = line_state(s.drop_last());
        if s.last() == '\n' {
            (done.push(strip_cr(cur)), Seq::empty())
        } else {
            (done, cur.push(s.last()))
        }
    }
}

/// The lines of `s` as `str::lines` gives them: split at each `\n`, a
/// `\r` right before it dropped, a last line without `\n` kept as is.
pub open spec fn lines(s: Seq<char>) -> Seq<Seq<char>> {
    let (done, cur) = line_state(s);
    if cur.len() > 0 { done.push(cur) } else { done }
}

proof fn lemma_idents_nonempty(s: Seq<char>)
    requires
        s.len() > 0,
        is_word_char(s.last()),
    ensures
        idents(s).len() > 0,
    decreases s.len(),
{
    if s.len() >= 2 && is_word_char(s[s.len() - 2]) {
        assert(s.drop_last().last() == s[s.len() - 2]);
        lemma_idents_nonempty(s.drop_last());
    }
}

fn idents_exec(s: &Vec<char>) -> (r: Vec<Vec<char>>)
    ensures
        r@.map_values(|v: Vec<char>| v@) == idents(s@),
{
    let mut out: Vec<Vec<char>> = Vec::new();
    let mut i: usize = 0;
    assert(out@.map_values(|v: Vec<char>| v@) =~= idents(s@.take(0)));
    while i < s.len()
        invariant
            i <= s@.len(),
            out@.map_values(|v: Vec<char>| v@) == idents(s@.take(i as int)),
        decreases s@.len() - i,
    {
        let ghost t = s@.take(i as int + 1);
        assert(t.drop_last() =~= s@.take(i as int));
        let c = s[i];
        let ghost before = out@.map_values(|v: Vec<char>| v@);
        if char_is_word(c) {
            if i >= 1 && char_is_word(s[i - 1]) {
                assert(t[t.len() - 2] == s@[i - 1]);
                proof {
                    assert(s@.take(i as int).last() == s@[i - 1]);
                    lemma_idents_nonempty(s@.take(i as int));
                }
                let mut last = out.pop().unwrap();
                last.push(c);
                out.push(last);
                assert(out@.map_values(|v: Vec<char>| v@) =~= before.drop_last().push(before.last().push(c)));
            } else {
                if i >= 1 {
                    assert(t[t.len() - 2] == s@[i - 1]);
                }
                let mut w: Vec<char> = Vec::new();
                w.push(c);
                out.push(w);
                assert(out@.map_values(|v: Vec<char>| v@) =~= before.push(seq![c]));
            }
        }
        i = i + 1;
    }
    assert(s@.take(s@.len() as int) =~= s@);
    out
}

fn lines_exec(s: &Vec<char>) -> (r: Vec<Vec<char>>)
    ensures
        r@.map_values(|v: Vec<char>| v@) == lines(s@),
{
    let mut done: Vec<Vec<char>> = Vec::new();
    let mut cur: Vec<char> = Vec::new();
    let mut i: usize = 0;
    assert(done@.map_values(|v: Vec<char>| v@) =~= line_state(s@.take(0)).0);
    while i < s.len()
        invariant
            i <= s@.len(),
            (done@.map_values(|v: Vec<char>| v@), cur@) == line_state(s@.take(i as int)),
        decreases s@.len() - i,
    {
        let ghost t = s@.take(i as int + 1);
        assert(t.drop_last() =~= s@.take(i as int));
        let c = s[i];
        let ghost before = done@.map_values(|v: Vec<char>| v@);
        if c == '\n' {
            let ghost cm = cur@;
            let mut l = cur;
            if l.len() > 0 && l[l.len() - 1] == '\r' {
                l.pop();
                assert(l@ =~= cm.drop_last());
            }
            done.push(l);
            assert(done@.map_values(|v: Vec<char>| v@) =~= before.push(strip_cr(cm)));
            cur = Vec::new();
        } else {
            cur.push(c);
        }
        i = i + 1;
    }
    assert(s@.take(s@.len() as int) =~= s@);
    let ghost before = done@.map_values(|v: Vec<char>| v@);
    if cur.len() > 0 {
        let ghost cm = cur@;
        done.push(cur);
        assert(done@.map_values(|v: Vec<char>| v@) =~= before.push(cm));
    }
    done
}

// ---------------------------------------------------------------------
// Definition lines
// ---------------------------------------------------------------------

/// How many word characters `s` starts with.
pub open spec fn lead_word(s: Seq<char>) -> nat
    decreases s.len(),
{
    if s.len() > 0 && is_word_char(s[0]) { 1 + lead_word(s.drop_first()) } else { 0 }
}

/// The word `s` starts with (possibly empty).
pub open spec fn word_prefix(s: Seq<char>) -> Seq<char> {
    s.take(lead_word(s) as int)
}

pub open spec fn starts_with(s: Seq<char>, p: Seq<char>) -> bool {
    p.len() <= s.len() && s.take(p.len() as int) == p
}

/// `line` starts a top-level definition: at column 0, `local …`, or an
/// assignment `NAME = …` (not `NAME == …`).
pub open spec fn def_start(line: Seq<char>) -> bool {
    if line.len() > 0 && (line[0] == ' ' || line[0] == '\t') {
        false
    } else if starts_with(line, "local "@) {
        true
    } else {
        let n = lead_word(line);
        let after = trim_start(line.skip(n as int));
        n > 0 && !is_digit(line[0]) && after.len() > 0 && after[0] == '='
            && !(after.len() > 1 && after[1] == '=')
    }
}

/// How many characters of `s` come before its first `=` or `;`.
pub open spec fn decl_len(s: Seq<char>) -> nat
    decreases s.len(),
{
    if s.len() == 0 || s[0] == '=' || s[0] == ';' { 0 } else { 1 + decl_len(s.drop_first()) }
}

/// The identifiers among the leading words of the trimmed pieces.
pub open spec fn decl_names(ps: Seq<Seq<char>>) -> Seq<Seq<char>>
    decreases ps.len(),
{
    if ps.len() == 0 {
        Seq::empty()
    } else {
        let r = decl_names(ps.drop_last());
        let w = word_prefix(trim_end(trim_start(ps.last())));
        if is_ident_text(w) { r.push(w) } else { r }
    }
}

/// The names a definition line introduces: the function of a
/// `local function`, the declared names of a `local` (up to its `=` or
/// `;`), or the assigned name.
pub open spec fn provided_names(line: Seq<char>) -> Seq<Seq<char>> {
    let l = trim_end(trim_start(line));
    if starts_with(l, "local function "@) {
        seq![word_prefix(l.skip(15))]
    } else if starts_with(l, "local "@) {
        let rest = l.skip(6);
        decl_names(split_commas(rest.take(decl_len(rest) as int)))
    } else {
        let name = word_prefix(l);
        if is_ident_text(name) { seq![name] } else { Seq::empty() }
    }
}

proof fn lemma_lead_word(s: Seq<char>, k: int)
    requires
        0 <= k <= s.len(),
        forall|j: int| 0 <= j < k ==> is_word_char(#[trigger] s[j]),
        k == s.len() || !is_word_char(s[k]),
    ensures
        lead_word(s) == k,
    decreases k,
{
    if k > 0 {
        let q = s.drop_first();
        assert forall|j: int| 0 <= j < k - 1 implies is_word_char(#[trigger] q[j]) by {
            assert(q[j] == s[j + 1]);
        }
        if k < s.len() {
            assert(q[k - 1] == s[k]);
        }
        lemma_lead_word(q, k - 1);
    }
}

proof fn lemma_decl_len(s: Seq<char>, k: int)
    requires
        0 <= k <= s.len(),
        forall|j: int| 0 <= j < k ==> #[trigger] s[j] != '=' && s[j] != ';',
        k == s.len() || s[k] == '=' || s[k] == ';',
    ensures
        decl_len(s) == k,
    decreases k,
{
    if k > 0 {
        let q = s.drop_first();
        assert forall|j: int| 0 <= j < k - 1 implies #[trigger] q[j] != '=' && q[j] != ';' by {
            assert(q[j] == s[j + 1]);
        }
        if k < s.len() {
            assert(q[k - 1] == s[k]);
        }
        lemma_decl_len(q, k - 1);
    }
}

/// The word `s` starts with from position `from`.
fn word_from(s: &Vec<char>, from: usize) -> (r: Vec<char>)
    requires
        from <= s@.len(),
    ensures
        r@ == word_prefix(s@.skip(from as int)),
{
    let ghost t = s@.skip(from as int);
    let mut out: Vec<char> = Vec::new();
    let mut i: usize = from;
    while i < s.len() && char_is_word(s[i])
        invariant
            from <= i <= s@.len(),
            t == s@.skip(from as int),
            out@ == t.take(i - from),
            forall|j: int| 0 <= j < i - from ==> is_word_char(#[trigger] t[j]),
        decreases s@.len() - i,
    {
        assert(t[i - from] == s@[i as int]);
        out.push(s[i]);
        assert(t.take(i - from + 1) =~= t.take(i - from).push(t[i - from]));
        i = i + 1;
    }
    proof {
        if i < s.len() {
            assert(t[i - from] == s@[i as int]);
        }
        lemma_lead_word(t, i - from);
    }
    out
}

/// Does `s` start with the characters of `p`?
fn starts_with_exec(s: &Vec<char>, p: &str) -> (r: bool)
    ensures
        r == starts_with(s@, p@),
{
    let pv = chars_of(p);
    if pv.len() > s.len() {
        return false;
    }
    let mut i: usize = 0;
    while i < pv.len()
        invariant
            pv@ == p@,
            pv@.len() <= s@.len(),
            i <= pv@.len(),
            forall|j: int| 0 <= j < i ==> s@[j] == pv@[j],
        decreases pv@.len() - i,
    {
        if s[i] != pv[i] {
            assert(s@.take(pv@.len() as int)[i as int] != pv@[i as int]);
            return false;
        }
        i = i + 1;
    }
    assert(s@.take(pv@.len() as int) =~= pv@);
    true
}

fn def_start_exec(line: &Vec<char>) -> (r: bool)
    ensures
        r == def_start(line@),
{
    if line.len() > 0 && (line[0] == ' ' || line[0] == '\t') {
        return false;
    }
    if starts_with_exec(line, "local ") {
        return true;
    }
    let w = word_from(line, 0);
    let n = w.len();
    assert(line@.skip(0) =~= line@);
    proof {
        lemma_lead_word_bound(line@);
    }
    if n == 0 || char_is_digit(line[0]) {
        return false;
    }
    let mut k: usize = n;
    while k < line.len() && char_is_ws(line[k])
        invariant
            n <= k <= line@.len(),
            forall|j: int| n <= j < k ==> crate::passes::is_ws(#[trigger] line@[j]),
        decreases line@.len() - k,
    {
        k = k + 1;
    }
    let ghost rest = line@.skip(n as int);
    proof {
        assert forall|j: int| 0 <= j < k - n implies crate::passes::is_ws(#[trigger] rest[j]) by {
            assert(rest[j] == line@[j + n]);
        }
        if k < line.len() {
            assert(rest[k - n] == line@[k as int]);
        }
        crate::passes::lemma_trim_start(rest, k - n);
        let after = rest.skip(k - n);
        if k < line.len() {
            assert(after[0] == line@[k as int]);
            if k + 1 < line.len() {
                assert(after[1] == line@[k + 1]);
            }
        }
    }
    k < line.len() && line[k] == '=' && !(k + 1 < line.len() && line[k + 1] == '=')
}

proof fn lemma_lead_word_bound(s: Seq<char>)
    ensures
        lead_word(s) <= s.len(),
    decreases s.len(),
{
    if s.len() > 0 && is_word_char(s[0]) {
        lemma_lead_word_bound(s.drop_first());
    }
}

/// The identifiers among the leading words of the comma-separated pieces
/// of `decl`.
fn decl_names_exec(decl: &Vec<char>) -> (r: Vec<Vec<char>>)
    ensures
        r@.map_values(|v: Vec<char>| v@) == decl_names(split_commas(decl@)),
{
    let mut out: Vec<Vec<char>> = Vec::new();
    let mut cur: Vec<char> = Vec::new();
    let ghost mut done: Seq<Seq<char>> = Seq::empty();
    let mut i: usize = 0;
    assert(decl@.take(0) =~= Seq::<char>::empty());
    assert(out@.map_values(|v: Vec<char>| v@) =~= decl_names(done));
    while i < decl.len()
        invariant
            i <= decl@.len(),
            split_commas(decl@.take(i as int)) == done.push(cur@),
            out@.map_values(|v: Vec<char>| v@) == decl_names(done),
        decreases decl@.len() - i,
    {
        let c = decl[i];
        let ghost t = decl@.take(i as int + 1);
        assert(t.drop_last() =~= decl@.take(i as int));
        assert(t.last() == c);
        if c == ',' {
            let ghost before = out@.map_values(|v: Vec<char>| v@);
            let tp = trimmed(&cur);
            let w = word_from(&tp, 0);
            assert(tp@.skip(0) =~= tp@);
            let ok = crate::tokens::ident_chars(&w);
            if ok {
                out.push(w);
            }
            proof {
                assert(done.push(cur@).drop_last() =~= done);
                assert(done.push(cur@).last() == cur@);
                if ok {
                    assert(out@.map_values(|v: Vec<char>| v@) =~= before.push(w@));
                }
                done = done.push(cur@);
            }
            cur = Vec::new();
            assert(split_commas(t) =~= done.push(cur@));
        } else {
            let ghost parts = done.push(cur@);
            cur.push(c);
            assert(split_commas(t) =~= parts.update(parts.len() - 1, parts.last().push(c)));
            assert(split_commas(t) =~= done.push(cur@));
        }
        i = i + 1;
    }
    assert(decl@.take(decl@.len() as int) =~= decl@);
    let ghost before = out@.map_values(|v: Vec<char>| v@);
    let tp = trimmed(&cur);
    let w = word_from(&tp, 0);
    assert(tp@.skip(0) =~= tp@);
    let ok = crate::tokens::ident_chars(&w);
    if ok {
        out.push(w);
    }
    proof {
        assert(done.push(cur@).drop_last() =~= done);
        assert(done.push(cur@).last() == cur@);
        if ok {
            assert(out@.map_values(|v: Vec<char>| v@) =~= before.push(w@));
        }
    }
    out
}

fn provided_names_exec(line: &Vec<char>) -> (r: Vec<Vec<char>>)
    ensures
        r@.map_values(|v: Vec<char>| v@) == provided_names(line@),
{
    let l = trimmed(line);
    if starts_with_exec(&l, "local function ") {
        proof {
            reveal_strlit("local function ");
        }
        let w = word_from(&l, 15);
        let mut out: Vec<Vec<char>> = Vec::new();
        out.push(w);
        assert(out@.map_values(|v: Vec<char>| v@) =~= seq![w@]);
        return out;
    }
    if starts_with_exec(&l, "local ") {
        proof {
            reveal_strlit("local ");
        }
        let ghost rest = l@.skip(6);
        let mut decl: Vec<char> = Vec::new();
        let mut i: usize = 6;
        while i < l.len() && l[i] != '=' && l[i] != ';'
            invariant
                6 <= i <= l@.len(),
                rest == l@.skip(6),
                decl@ == rest.take(i - 6),
                forall|j: int| 0 <= j < i - 6 ==> #[trigger] rest[j] != '=' && rest[j] != ';',
            decreases l@.len() - i,
        {
            assert(rest[i - 6] == l@[i as int]);
            decl.push(l[i]);
            assert(rest.take(i - 6 + 1) =~= rest.take(i - 6).push(rest[i - 6]));
            i = i + 1;
        }
        proof {
            if i < l.len() {
                assert(rest[i - 6] == l@[i as int]);
            }
            lemma_decl_len(rest, i - 6);
        }
        return decl_names_exec(&decl);
    }
    let w = word_from(&l, 0);
    assert(l@.skip(0) =~= l@);
    let mut out: Vec<Vec<char>> = Vec::new();
    if crate::tokens::ident_chars(&w) {
        out.push(w);
        assert(out@.map_values(|v: Vec<char>| v@) =~= seq![w@]);
    } else {
        assert(out@.map_values(|v: Vec<char>| v@) =~= Seq::<Seq<char>>::empty());
    }
    out
}

// ---------------------------------------------------------------------
// Chunks
// ---------------------------------------------------------------------

/// A definition chunk: the names it provides and its text.
pub type Chunk = (Seq<Seq<char>>, Seq<char>);

pub open spec fn quiet_line(line: Seq<char>) -> bool {
    let t = trim_start(line);
    t.len() == 0 || starts_with(t, "--"@)
}

pub open spec fn with_nl(line: Seq<char>) -> Seq<char> {
    line.push('\n')
}

/// The chunks so far, the open chunk, and the quiet lines waiting for the
/// next definition: a definition line opens a chunk (taking the waiting
/// lines); a quiet line waits; any other line joins the open chunk, the
/// waiting lines first.
pub open spec fn parse_state(ls: Seq<Seq<char>>) -> (Seq<Chunk>, Option<Chunk>, Seq<char>)
    decreases ls.len(),
{
    if ls.len() == 0 {
        (Seq::empty(), None, Seq::empty())
    } else {
        let (cs, cur, pend) = parse_state(ls.drop_last());
        let line = ls.last();
        if def_start(line) {
            let cs2 = match cur { Some(c) => cs.push(c), None => cs };
            (cs2, Some((provided_names(line), pend + with_nl(line))), Seq::empty())
        } else if quiet_line(line) {
            (cs, cur, pend + with_nl(line))
        } else {
            match cur {
                Some(c) => (cs, Some((c.0, c.1 + pend + with_nl(line))), Seq::empty()),
                None => (cs, None, pend + with_nl(line)),
            }
        }
    }
}

/// The definition chunks of the prelude text, in order; quiet lines after
/// the last definition stay with it.
pub open spec fn chunks_of(prelude: Seq<char>) -> Seq<Chunk> {
    let (cs, cur, pend) = parse_state(lines(prelude));
    match cur {
        Some(c) => cs.push((c.0, c.1 + pend)),
        None => cs,
    }
}

pub open spec fn vmodel(v: Seq<Vec<char>>) -> Seq<Seq<char>> {
    v.map_values(|x: Vec<char>| x@)
}

pub open spec fn cmodel(c: (Vec<Vec<char>>, Vec<char>)) -> Chunk {
    (vmodel(c.0@), c.1@)
}

pub open spec fn csmodel(cs: Seq<(Vec<Vec<char>>, Vec<char>)>) -> Seq<Chunk> {
    cs.map_values(|c: (Vec<Vec<char>>, Vec<char>)| cmodel(c))
}

fn quiet_line_exec(line: &Vec<char>) -> (r: bool)
    ensures
        r == quiet_line(line@),
{
    let mut k: usize = 0;
    while k < line.len() && char_is_ws(line[k])
        invariant
            k <= line@.len(),
            forall|j: int| 0 <= j < k ==> crate::passes::is_ws(#[trigger] line@[j]),
        decreases line@.len() - k,
    {
        k = k + 1;
    }
    proof {
        crate::passes::lemma_trim_start(line@, k as int);
        reveal_strlit("--");
        assert("--"@ =~= seq!['-', '-']);
    }
    let ghost t = line@.skip(k as int);
    if k == line.len() {
        return true;
    }
    if k + 1 < line.len() && line[k] == '-' && line[k + 1] == '-' {
        assert(t.take(2) =~= seq!['-', '-']);
        return true;
    }
    proof {
        if t.len() >= 2 && t.take(2) == seq!['-', '-'] {
            assert(t.take(2)[0] == line@[k as int]);
            assert(t.take(2)[1] == line@[k + 1]);
        }
    }
    false
}

fn append(a: &mut Vec<char>, b: &Vec<char>)
    ensures
        final(a)@ == old(a)@ + b@,
{
    let mut i: usize = 0;
    let ghost a0 = a@;
    while i < b.len()
        invariant
            i <= b@.len(),
            a@ == a0 + b@.take(i as int),
        decreases b@.len() - i,
    {
        a.push(b[i]);
        assert(b@.take(i as int + 1) =~= b@.take(i as int).push(b@[i as int]));
        i = i + 1;
    }
    assert(b@.take(b@.len() as int) =~= b@);
}

fn chunks_exec(prelude: &Vec<char>) -> (r: Vec<(Vec<Vec<char>>, Vec<char>)>)
    ensures
        csmodel(r@) == chunks_of(prelude@),
{
    let ls = lines_exec(prelude);
    let ghost lm = vmodel(ls@);
    let mut cs: Vec<(Vec<Vec<char>>, Vec<char>)> = Vec::new();
    let mut cur: Option<(Vec<Vec<char>>, Vec<char>)> = None;
    let mut pend: Vec<char> = Vec::new();
    let mut i: usize = 0;
    assert(lm.take(0) =~= Seq::<Seq<char>>::empty());
    assert(csmodel(cs@) =~= Seq::<Chunk>::empty());
    while i < ls.len()
        invariant
            i <= ls@.len(),
            lm == vmodel(ls@),
            lm == lines(prelude@),
            (csmodel(cs@), match cur { Some(c) => Some(cmodel(c)), None => None::<Chunk> }, pend@) == parse_state(lm.take(i as int)),
        decreases ls@.len() - i,
    {
        let ghost t = lm.take(i as int + 1);
        assert(t.drop_last() =~= lm.take(i as int));
        assert(t.last() == ls@[i as int]@);
        let line = &ls[i];
        let mut wl: Vec<char> = Vec::new();
        append(&mut wl, line);
        wl.push('\n');
        assert(wl@ =~= with_nl(line@));
        if def_start_exec(line) {
            let ghost before = csmodel(cs@);
            match cur {
                Some(c) => {
                    let ghost cm = cmodel(c);
                    cs.push(c);
                    assert(csmodel(cs@) =~= before.push(cm));
                },
                None => {},
            }
            let names = provided_names_exec(line);
            let mut text = pend;
            append(&mut text, &wl);
            cur = Some((names, text));
            pend = Vec::new();
        } else if quiet_line_exec(line) {
            append(&mut pend, &wl);
        } else {
            match cur {
                Some(c) => {
                    let (names, mut text) = c;
                    append(&mut text, &pend);
                    append(&mut text, &wl);
                    cur = Some((names, text));
                    pend = Vec::new();
                },
                None => {
                    append(&mut pend, &wl);
                    cur = None;
                },
            }
        }
        i = i + 1;
    }
    assert(lm.take(ls@.len() as int) =~= lm);
    match cur {
        Some(c) => {
            let (names, mut text) = c;
            append(&mut text, &pend);
            let ghost before = csmodel(cs@);
            let ghost cm = (vmodel(names@), text@);
            cs.push((names, text));
            assert(csmodel(cs@) =~= before.push(cm));
        },
        None => {},
    }
    cs
}

// ---------------------------------------------------------------------
// Selection
// ---------------------------------------------------------------------

/// The names the chunks provide, in order.
pub open spec fn provided(cs: Seq<Chunk>) -> Seq<Seq<char>>
    decreases cs.len(),
{
    if cs.len() == 0 { Seq::empty() } else { provided(cs.drop_last()) + cs.last().0 }
}

/// Every name some chunk provides.
pub open spec fn all_names(cs: Seq<Chunk>) -> Set<Seq<char>> {
    provided(cs).to_set()
}

/// A name is provided exactly when some chunk provides it.
pub proof fn lemma_provided(cs: Seq<Chunk>, n: Seq<char>)
    ensures
        provided(cs).contains(n) <==> exists|i: int| 0 <= i < cs.len() && #[trigger] cs[i].0.contains(n),
    decreases cs.len(),
{
    if cs.len() > 0 {
        let p = provided(cs.drop_last());
        let l = cs.last().0;
        lemma_provided(cs.drop_last(), n);
        if provided(cs).contains(n) {
            let w = choose|w: int| 0 <= w < provided(cs).len() && provided(cs)[w] == n;
            if w < p.len() {
                assert(p[w] == n);
                let i = choose|i: int| 0 <= i < cs.drop_last().len() && #[trigger] cs.drop_last()[i].0.contains(n);
                assert(cs[i] == cs.drop_last()[i]);
            } else {
                assert(l[w - p.len()] == n);
                assert(cs[cs.len() - 1].0.contains(n));
            }
        }
        if exists|i: int| 0 <= i < cs.len() && #[trigger] cs[i].0.contains(n) {
            let i = choose|i: int| 0 <= i < cs.len() && #[trigger] cs[i].0.contains(n);
            if i < cs.len() - 1 {
                assert(cs.drop_last()[i] == cs[i]);
                let w = choose|w: int| 0 <= w < p.len() && p[w] == n;
                assert(provided(cs)[w] == n);
            } else {
                let w = choose|w: int| 0 <= w < l.len() && l[w] == n;
                assert(provided(cs)[p.len() + w] == n);
            }
        }
    }
}

/// The prelude names `body` mentions.
pub open spec fn roots(cs: Seq<Chunk>, body: Seq<char>) -> Set<Seq<char>> {
    Set::new(|d: Seq<char>| idents(body).contains(d) && all_names(cs).contains(d))
}

/// Every prelude name mentioned by a chunk that provides a name of `n` is
/// in `n`.
pub open spec fn closed(cs: Seq<Chunk>, n: Set<Seq<char>>) -> bool {
    forall|i: int, a: Seq<char>, d: Seq<char>|
        0 <= i < cs.len() && #[trigger] cs[i].0.contains(a) && n.contains(a) && #[trigger] idents(cs[i].1).contains(d)
            && all_names(cs).contains(d) ==> n.contains(d)
}

/// `n` is the least closed set of prelude names holding the roots.
pub open spec fn least_needed(cs: Seq<Chunk>, body: Seq<char>, n: Set<Seq<char>>) -> bool {
    &&& roots(cs, body).subset_of(n)
    &&& n.subset_of(all_names(cs))
    &&& closed(cs, n)
    &&& forall|m: Set<Seq<char>>| #[trigger] closed(cs, m) && roots(cs, body).subset_of(m) ==> n.subset_of(m)
}

/// Completeness of the selection: every prelude name mentioned by the body
/// or by an emitted chunk is provided by an emitted chunk.
pub proof fn lemma_selection_complete(cs: Seq<Chunk>, body: Seq<char>, n: Set<Seq<char>>, d: Seq<char>)
    requires
        least_needed(cs, body, n),
        all_names(cs).contains(d),
        idents(body).contains(d) || exists|i: int| 0 <= i < cs.len() && selected(cs[i], n) && #[trigger] idents(cs[i].1).contains(d),
    ensures
        exists|j: int| 0 <= j < cs.len() && selected(cs[j], n) && #[trigger] cs[j].0.contains(d),
{
    if idents(body).contains(d) {
        assert(roots(cs, body).contains(d));
    } else {
        let i = choose|i: int| 0 <= i < cs.len() && selected(cs[i], n) && #[trigger] idents(cs[i].1).contains(d);
        let k = choose|k: int| 0 <= k < cs[i].0.len() && n.contains(#[trigger] cs[i].0[k]);
        let a = cs[i].0[k];
        assert(cs[i].0.contains(a));
    }
    assert(n.contains(d));
    lemma_provided(cs, d);
    let j = choose|j: int| 0 <= j < cs.len() && #[trigger] cs[j].0.contains(d);
    let w = choose|w: int| 0 <= w < cs[j].0.len() && cs[j].0[w] == d;
    assert(n.contains(cs[j].0[w]));
    assert(selected(cs[j], n));
}

/// Chunk `c` provides a name of `n`.
pub open spec fn selected(c: Chunk, n: Set<Seq<char>>) -> bool {
    exists|j: int| 0 <= j < c.0.len() && n.contains(#[trigger] c.0[j])
}

/// The texts of the chunks that provide a name of `n`, in order.
pub open spec fn emit_text(cs: Seq<Chunk>, n: Set<Seq<char>>) -> Seq<char>
    decreases cs.len(),
{
    if cs.len() == 0 {
        Seq::empty()
    } else {
        emit_text(cs.drop_last(), n) + if selected(cs.last(), n) { cs.last().1 } else { Seq::empty() }
    }
}

pub open spec fn header() -> Seq<char> {
    "-- MLL Runtime (on-demand subset)\n"@
}

fn mem(v: &Vec<Vec<char>>, x: &Vec<char>) -> (r: bool)
    ensures
        r == vmodel(v@).contains(x@),
{
    let mut i: usize = 0;
    while i < v.len()
        invariant
            i <= v@.len(),
            forall|j: int| 0 <= j < i ==> v@[j]@ != x@,
        decreases v@.len() - i,
    {
        if seq_eq(&v[i], x) {
            assert(vmodel(v@)[i as int] == x@);
            return true;
        }
        i = i + 1;
    }
    proof {
        if vmodel(v@).contains(x@) {
            let j = choose|j: int| 0 <= j < vmodel(v@).len() && vmodel(v@)[j] == x@;
            assert(v@[j]@ == x@);
        }
    }
    false
}

fn copy_chars(v: &Vec<char>) -> (r: Vec<char>)
    ensures
        r@ == v@,
{
    let mut r: Vec<char> = Vec::new();
    append(&mut r, v);
    r
}

/// The names the chunks provide, flattened.
fn provided_exec(cs: &Vec<(Vec<Vec<char>>, Vec<char>)>) -> (r: Vec<Vec<char>>)
    ensures
        vmodel(r@) == provided(csmodel(cs@)),
{
    let ghost m = csmodel(cs@);
    let mut out: Vec<Vec<char>> = Vec::new();
    let mut i: usize = 0;
    assert(vmodel(out@) =~= provided(m.take(0)));
    while i < cs.len()
        invariant
            i <= cs@.len(),
            m == csmodel(cs@),
            vmodel(out@) == provided(m.take(i as int)),
        decreases cs@.len() - i,
    {
        let ghost t = m.take(i as int + 1);
        assert(t.drop_last() =~= m.take(i as int));
        let ghost o0 = vmodel(out@);
        let mut j: usize = 0;
        while j < cs[i].0.len()
            invariant
                i < cs@.len(),
                j <= cs@[i as int].0@.len(),
                vmodel(out@) == o0 + vmodel(cs@[i as int].0@).take(j as int),
            decreases cs@[i as int].0@.len() - j,
        {
            let ghost before = vmodel(out@);
            let x = copy_chars(&cs[i].0[j]);
            let ghost xm = x@;
            out.push(x);
            assert(xm == vmodel(cs@[i as int].0@)[j as int]);
            assert(vmodel(out@) =~= before.push(xm));
            assert(vmodel(cs@[i as int].0@).take(j as int + 1) =~= vmodel(cs@[i as int].0@).take(j as int).push(xm));
            assert(vmodel(out@) =~= o0 + vmodel(cs@[i as int].0@).take(j as int + 1));
            j = j + 1;
        }
        assert(vmodel(cs@[i as int].0@).take(j as int) =~= m[i as int].0);
        assert(t.last() == m[i as int]);
        i = i + 1;
    }
    assert(m.take(cs@.len() as int) =~= m);
    out
}

proof fn lemma_push_set(v: Seq<Seq<char>>, x: Seq<char>)
    requires
        v.no_duplicates(),
        !v.contains(x),
    ensures
        v.push(x).to_set() == v.to_set().insert(x),
        v.push(x).no_duplicates(),
{
    assert forall|y: Seq<char>| v.push(x).to_set().contains(y) == v.to_set().insert(x).contains(y) by {
        if v.push(x).contains(y) {
            let w = choose|w: int| 0 <= w < v.push(x).len() && v.push(x)[w] == y;
            if w < v.len() {
                assert(v[w] == y);
            }
        }
        if v.contains(y) {
            let w = choose|w: int| 0 <= w < v.len() && v[w] == y;
            assert(v.push(x)[w] == y);
        }
        if y == x {
            assert(v.push(x)[v.len() as int] == y);
        }
    }
    assert(v.push(x).to_set() =~= v.to_set().insert(x));
    assert forall|i: int, j: int| 0 <= i < v.push(x).len() && 0 <= j < v.push(x).len() && i != j
        implies v.push(x)[i] != v.push(x)[j] by {
        if i == v.len() as int {
            assert(v[j] == v.push(x)[j]);
        } else if j == v.len() as int {
            assert(v[i] == v.push(x)[i]);
        }
    }
}

proof fn lemma_card(nd: Seq<Seq<char>>, all: Seq<Seq<char>>)
    requires
        nd.no_duplicates(),
        nd.to_set().subset_of(all.to_set()),
    ensures
        nd.len() <= all.len(),
{
    broadcast use vstd::seq_lib::seq_to_set_is_finite;
    nd.unique_seq_to_set();
    all.lemma_cardinality_of_set();
    vstd::set_lib::lemma_len_subset(nd.to_set(), all.to_set());
}

/// The invariant of the selection: `nd` holds no name twice, only prelude
/// names, and only names every closed set holding the roots holds.
pub open spec fn sel_inv(c: Seq<Chunk>, body: Seq<char>, nd: Seq<Seq<char>>) -> bool {
    &&& nd.no_duplicates()
    &&& nd.to_set().subset_of(all_names(c))
    &&& forall|m: Set<Seq<char>>| #[trigger] closed(c, m) && roots(c, body).subset_of(m) ==> nd.to_set().subset_of(m)
}

/// Add `x` to `needed` unless it is there already.
fn add_name(needed: &mut Vec<Vec<char>>, x: &Vec<char>, Ghost(c): Ghost<Seq<Chunk>>, Ghost(body): Ghost<Seq<char>>)
    requires
        sel_inv(c, body, vmodel(old(needed)@)),
        all_names(c).contains(x@),
        forall|m: Set<Seq<char>>| #[trigger] closed(c, m) && roots(c, body).subset_of(m) ==> m.contains(x@),
    ensures
        sel_inv(c, body, vmodel(final(needed)@)),
        vmodel(final(needed)@).to_set() == vmodel(old(needed)@).to_set().insert(x@),
        final(needed)@.len() >= old(needed)@.len(),
        forall|j: int| 0 <= j < old(needed)@.len() ==> #[trigger] vmodel(final(needed)@)[j] == vmodel(old(needed)@)[j],
{
    if mem(needed, x) {
        assert(vmodel(needed@).to_set() =~= vmodel(needed@).to_set().insert(x@));
        return;
    }
    let ghost before = vmodel(needed@);
    needed.push(copy_chars(x));
    proof {
        assert(vmodel(needed@) =~= before.push(x@));
        lemma_push_set(before, x@);
    }
}

/// There is one least closed set holding the roots.
pub proof fn lemma_least_unique(cs: Seq<Chunk>, body: Seq<char>, n1: Set<Seq<char>>, n2: Set<Seq<char>>)
    requires
        least_needed(cs, body, n1),
        least_needed(cs, body, n2),
    ensures
        n1 == n2,
{
    assert(closed(cs, n2) && roots(cs, body).subset_of(n2));
    assert(closed(cs, n1) && roots(cs, body).subset_of(n1));
    assert(n1.subset_of(n2));
    assert(n2.subset_of(n1));
    assert(n1 =~= n2);
}

/// The prelude text for `body`: the header and the chunks providing a name
/// of the least closed set of prelude names holding `body`'s.
pub open spec fn prelude_text(runtime: Seq<char>, body: Seq<char>) -> Seq<char> {
    header() + emit_text(chunks_of(runtime), choose|n: Set<Seq<char>>| least_needed(chunks_of(runtime), body, n))
}

/// The prelude definitions the generated `body` needs, in prelude order,
/// under a one-line header: the chunks of `runtime` that provide a name of
/// the least set of prelude names that holds every prelude name `body`
/// mentions and every prelude name mentioned by a chunk providing one of
/// its names.
pub fn ondemand_prelude(runtime: &str, body: &str) -> (r: String)
    ensures
        exists|n: Set<Seq<char>>| least_needed(chunks_of(runtime@), body@, n)
            && r@ == header() + emit_text(chunks_of(runtime@), n),
        r@ == prelude_text(runtime@, body@),
{
    let pv = chars_of(runtime);
    let bv = chars_of(body);
    let cs = chunks_exec(&pv);
    let ghost c = csmodel(cs@);
    let ghost bs = body@;
    let allv = provided_exec(&cs);
    // The mentions of every chunk.
    let mut toks: Vec<Vec<Vec<char>>> = Vec::new();
    let mut q: usize = 0;
    while q < cs.len()
        invariant
            q <= cs@.len(),
            c == csmodel(cs@),
            toks@.len() == q,
            forall|i: int| 0 <= i < q ==> vmodel(#[trigger] toks@[i]@) == idents(c[i].1),
        decreases cs@.len() - q,
    {
        let t = idents_exec(&cs[q].1);
        assert(c[q as int].1 == cs@[q as int].1@);
        toks.push(t);
        q = q + 1;
    }
    let btoks = idents_exec(&bv);
    let mut needed: Vec<Vec<char>> = Vec::new();
    assert(vmodel(needed@) =~= Seq::<Seq<char>>::empty());
    assert(vmodel(needed@).to_set() =~= Set::<Seq<char>>::empty());
    // The roots.
    let mut p: usize = 0;
    while p < btoks.len()
        invariant
            p <= btoks@.len(),
            c == csmodel(cs@),
            bs == body@,
            vmodel(btoks@) == idents(bv@),
            bv@ == body@,
            vmodel(allv@) == provided(c),
            sel_inv(c, bs, vmodel(needed@)),
            forall|j: int| 0 <= j < p && all_names(c).contains(#[trigger] vmodel(btoks@)[j])
                ==> vmodel(needed@).to_set().contains(vmodel(btoks@)[j]),
        decreases btoks@.len() - p,
    {
        let ghost n0 = vmodel(needed@).to_set();
        let t = &btoks[p];
        assert(vmodel(btoks@)[p as int] == t@);
        if mem(&allv, t) {
            proof {
                assert(idents(bs).contains(t@));
                assert(roots(c, bs).contains(t@));
            }
            add_name(&mut needed, t, Ghost(c), Ghost(bs));
        }
        p = p + 1;
    }
    proof {
        assert forall|d: Seq<char>| roots(c, bs).contains(d) implies vmodel(needed@).to_set().contains(d) by {
            let j = choose|j: int| 0 <= j < idents(bs).len() && idents(bs)[j] == d;
            assert(vmodel(btoks@)[j] == d);
        }
    }
    // The closure.
    let mut k: usize = 0;
    loop
        invariant
            c == csmodel(cs@),
            bs == body@,
            vmodel(allv@) == provided(c),
            toks@.len() == cs@.len(),
            forall|i: int| 0 <= i < cs@.len() ==> vmodel(#[trigger] toks@[i]@) == idents(c[i].1),
            sel_inv(c, bs, vmodel(needed@)),
            roots(c, bs).subset_of(vmodel(needed@).to_set()),
            k <= needed@.len(),
            forall|j: int, i: int, d: Seq<char>| 0 <= j < k && 0 <= i < c.len() && #[trigger] c[i].0.contains(vmodel(needed@)[j])
                && #[trigger] idents(c[i].1).contains(d) && all_names(c).contains(d) ==> vmodel(needed@).to_set().contains(d),
        ensures
            sel_inv(c, bs, vmodel(needed@)),
            roots(c, bs).subset_of(vmodel(needed@).to_set()),
            closed(c, vmodel(needed@).to_set()),
        decreases allv@.len() - needed@.len(), needed@.len() - k,
    {
        proof {
            lemma_card(vmodel(needed@), vmodel(allv@));
        }
        if k >= needed.len() {
            proof {
                let nset = vmodel(needed@).to_set();
                assert forall|i: int, a: Seq<char>, d: Seq<char>|
                    0 <= i < c.len() && #[trigger] c[i].0.contains(a) && nset.contains(a) && #[trigger] idents(c[i].1).contains(d)
                        && all_names(c).contains(d) implies nset.contains(d) by {
                    let j = choose|j: int| 0 <= j < vmodel(needed@).len() && vmodel(needed@)[j] == a;
                    assert(c[i].0.contains(vmodel(needed@)[j]));
                }
            }
            break;
        }
        let a = copy_chars(&needed[k]);
        assert(a@ == vmodel(needed@)[k as int]);
        let ghost len0 = needed@.len();
        let ghost s0 = vmodel(needed@).to_set();
        let ghost nd0 = vmodel(needed@);
        let mut i: usize = 0;
        while i < cs.len()
            invariant
                c == csmodel(cs@),
                bs == body@,
                vmodel(allv@) == provided(c),
                toks@.len() == cs@.len(),
                forall|i: int| 0 <= i < cs@.len() ==> vmodel(#[trigger] toks@[i]@) == idents(c[i].1),
                sel_inv(c, bs, vmodel(needed@)),
                k < len0 <= needed@.len(),
                a@ == vmodel(needed@)[k as int],
                s0.subset_of(vmodel(needed@).to_set()),
                forall|j: int| 0 <= j < len0 ==> #[trigger] vmodel(needed@)[j] == nd0[j],
                nd0.len() == len0,
                i <= cs@.len(),
                forall|i2: int, d: Seq<char>| 0 <= i2 < i && #[trigger] c[i2].0.contains(a@)
                    && #[trigger] idents(c[i2].1).contains(d) && all_names(c).contains(d) ==> vmodel(needed@).to_set().contains(d),
            decreases cs@.len() - i,
        {
            let provides_a = mem(&cs[i].0, &a);
            assert(c[i as int].0 == vmodel(cs@[i as int].0@));
            let ghost si = vmodel(needed@).to_set();
            let ghost ndi = vmodel(needed@);
            if provides_a {
                let mut w: usize = 0;
                while w < toks[i].len()
                    invariant
                        c == csmodel(cs@),
                        bs == body@,
                        vmodel(allv@) == provided(c),
                        toks@.len() == cs@.len(),
                        i < cs@.len(),
                        vmodel(toks@[i as int]@) == idents(c[i as int].1),
                        sel_inv(c, bs, vmodel(needed@)),
                        c[i as int].0.contains(a@),
                        vmodel(needed@).to_set().contains(a@),
                        si.subset_of(vmodel(needed@).to_set()),
                        needed@.len() >= ndi.len(),
                        forall|j: int| 0 <= j < ndi.len() ==> #[trigger] vmodel(needed@)[j] == ndi[j],
                        w <= toks@[i as int]@.len(),
                        forall|q: int| 0 <= q < w && all_names(c).contains(#[trigger] idents(c[i as int].1)[q])
                            ==> vmodel(needed@).to_set().contains(idents(c[i as int].1)[q]),
                    decreases toks@[i as int]@.len() - w,
                {
                    let ghost nb = vmodel(needed@).to_set();
                    let d = &toks[i][w];
                    assert(idents(c[i as int].1)[w as int] == d@);
                    if mem(&allv, d) {
                        proof {
                            assert(idents(c[i as int].1).contains(d@));
                            assert forall|m: Set<Seq<char>>| #[trigger] closed(c, m) && roots(c, bs).subset_of(m) implies m.contains(d@) by {
                                assert(nb.subset_of(m));
                            }
                        }
                        let ghost before = vmodel(needed@);
                        add_name(&mut needed, d, Ghost(c), Ghost(bs));
                        proof {
                            assert forall|j: int| 0 <= j < ndi.len() implies #[trigger] vmodel(needed@)[j] == ndi[j] by {
                                assert(vmodel(needed@)[j] == before[j]);
                            }
                        }
                    }
                    w = w + 1;
                }
            }
            proof {
                assert forall|i2: int, d: Seq<char>| 0 <= i2 < i + 1 && #[trigger] c[i2].0.contains(a@)
                    && #[trigger] idents(c[i2].1).contains(d) && all_names(c).contains(d) implies vmodel(needed@).to_set().contains(d) by {
                    if i2 == i {
                        let q = choose|q: int| 0 <= q < idents(c[i2].1).len() && idents(c[i2].1)[q] == d;
                        assert(all_names(c).contains(idents(c[i as int].1)[q]));
                    } else {
                        assert(si.contains(d));
                    }
                }
                assert forall|j: int| 0 <= j < len0 implies #[trigger] vmodel(needed@)[j] == nd0[j] by {
                    assert(vmodel(needed@)[j] == ndi[j]);
                }
            }
            i = i + 1;
        }
        proof {
            lemma_card(vmodel(needed@), vmodel(allv@));
            assert forall|j: int, i2: int, d: Seq<char>| 0 <= j < k + 1 && 0 <= i2 < c.len() && #[trigger] c[i2].0.contains(vmodel(needed@)[j])
                && #[trigger] idents(c[i2].1).contains(d) && all_names(c).contains(d) implies vmodel(needed@).to_set().contains(d) by {
                assert(vmodel(needed@)[j] == nd0[j]);
                if j < k {
                    assert(c[i2].0.contains(nd0[j]));
                    assert(s0.contains(d));
                } else {
                    assert(nd0[j] == a@);
                }
            }
        }
        k = k + 1;
    }
    // The output, in prelude order.
    let ghost nset = vmodel(needed@).to_set();
    let mut out: Vec<char> = chars_of("-- MLL Runtime (on-demand subset)\n");
    let mut i: usize = 0;
    assert(c.take(0) =~= Seq::<Chunk>::empty());
    assert(out@ =~= header() + emit_text(c.take(0), nset));
    while i < cs.len()
        invariant
            c == csmodel(cs@),
            nset == vmodel(needed@).to_set(),
            i <= cs@.len(),
            out@ == header() + emit_text(c.take(i as int), nset),
        decreases cs@.len() - i,
    {
        let ghost t = c.take(i as int + 1);
        assert(t.drop_last() =~= c.take(i as int));
        assert(t.last() == c[i as int]);
        assert(c[i as int].0 == vmodel(cs@[i as int].0@));
        let mut sel = false;
        let mut j: usize = 0;
        while j < cs[i].0.len()
            invariant
                c == csmodel(cs@),
                nset == vmodel(needed@).to_set(),
                i < cs@.len(),
                c[i as int].0 == vmodel(cs@[i as int].0@),
                j <= cs@[i as int].0@.len(),
                sel == exists|q: int| 0 <= q < j && nset.contains(#[trigger] c[i as int].0[q]),
            decreases cs@[i as int].0@.len() - j,
        {
            if mem(&needed, &cs[i].0[j]) {
                assert(c[i as int].0[j as int] == cs@[i as int].0@[j as int]@);
                sel = true;
            } else {
                assert(c[i as int].0[j as int] == cs@[i as int].0@[j as int]@);
            }
            j = j + 1;
        }
        assert(sel == selected(c[i as int], nset));
        let ghost o0 = out@;
        if sel {
            append(&mut out, &cs[i].1);
            assert(out@ =~= header() + emit_text(t, nset));
        } else {
            assert(out@ =~= header() + emit_text(t, nset));
        }
        i = i + 1;
    }
    assert(c.take(cs@.len() as int) =~= c);
    proof {
        assert(least_needed(c, bs, nset));
        let ch = choose|n: Set<Seq<char>>| least_needed(c, bs, n);
        lemma_least_unique(c, bs, nset, ch);
    }
    string_of(out.as_slice())
}

} // verus!
