//! The optimization passes over the finished statement list, in order:
//! paren normalization, dead-branch removal, IIFE flattening, the
//! `__force` collapse, then the structured loop conversions (self tail calls, two-level IO loops,
//! direct-perform IO loops). Each can be skipped by name, which isolates
//! one pass's effect when debugging emitted code.

use vstd::prelude::*;
use crate::lua::{Stmt, LStmt, stmts_model};
use crate::parens::{Ctx, norm_block, normalize_parens};
use crate::deadbranch::{db_block, dead_branch_block};
use crate::iife::{flat_block, flatten_iife};
use crate::forcec::{force_collapse_spec, force_collapse};
use crate::loops::{LoopPass, pass_output, run_loop_pass};
use crate::text::{chars_of, string_of, str_eq};
use crate::lua::strs_model;

verus! {

broadcast use vstd::string::group_string_axioms;

/// Which passes to skip; `force` names the `__force` collapse.
#[derive(Clone, Copy, PartialEq, Eq, Structural, Debug)]
pub struct Disable {
    pub parens: bool,
    pub dead: bool,
    pub iife: bool,
    pub force: bool,
    pub tailloop: bool,
    pub ioloop: bool,
    pub performloop: bool,
}

/// Nothing skipped.
pub open spec fn no_skips() -> Disable {
    Disable { parens: false, dead: false, iife: false, force: false, tailloop: false, ioloop: false, performloop: false }
}

impl Default for Disable {
    fn default() -> (r: Self)
        ensures
            r == no_skips(),
    {
        Disable { parens: false, dead: false, iife: false, force: false, tailloop: false, ioloop: false, performloop: false }
    }
}

/// The module after every pass that `d` does not skip.
pub open spec fn pipeline(ss: Seq<LStmt>, d: Disable) -> Seq<LStmt> {
    let a = if d.parens { ss } else { norm_block(ss, Ctx::DelimLast) };
    let b = if d.dead { a } else { db_block(a) };
    let c0 = if d.iife { b } else { flat_block(b) };
    let c = if d.force { c0 } else { force_collapse_spec(c0) };
    let t = if d.tailloop { c } else { pass_output(LoopPass::Tail, c) };
    let i = if d.ioloop { t } else { pass_output(LoopPass::Io, t) };
    if d.performloop { i } else { pass_output(LoopPass::Perform, i) }
}

/// Run the passes that `d` does not skip over the module body.
pub fn run_with(stmts: &mut Vec<Stmt>, d: &Disable)
    ensures
        stmts_model(final(stmts)@) == pipeline(stmts_model(old(stmts)@), *d),
{
    if !d.parens {
        normalize_parens(stmts);
    }
    if !d.dead {
        dead_branch_block(stmts);
    }
    if !d.iife {
        flatten_iife(stmts);
    }
    if !d.force {
        force_collapse(stmts);
    }
    if !d.tailloop {
        let _ = run_loop_pass(stmts, &LoopPass::Tail);
    }
    if !d.ioloop {
        let _ = run_loop_pass(stmts, &LoopPass::Io);
    }
    if !d.performloop {
        let _ = run_loop_pass(stmts, &LoopPass::Perform);
    }
}

// ---------------------------------------------------------------------
// Skip lists
// ---------------------------------------------------------------------

/// Unicode white space, as `str::trim` strips it.
pub open spec fn is_ws(c: char) -> bool {
    ('\u{9}' <= c && c <= '\u{d}') || c == ' ' || c == '\u{85}' || c == '\u{a0}' || c == '\u{1680}'
        || ('\u{2000}' <= c && c <= '\u{200a}') || c == '\u{2028}' || c == '\u{2029}' || c == '\u{202f}'
        || c == '\u{205f}' || c == '\u{3000}'
}

pub open spec fn trim_start(p: Seq<char>) -> Seq<char>
    decreases p.len(),
{
    if p.len() > 0 && is_ws(p[0]) { trim_start(p.drop_first()) } else { p }
}

pub open spec fn trim_end(p: Seq<char>) -> Seq<char>
    decreases p.len(),
{
    if p.len() > 0 && is_ws(p.last()) { trim_end(p.drop_last()) } else { p }
}

/// The text between commas, as `str::split(',')` gives it.
pub open spec fn split_commas(s: Seq<char>) -> Seq<Seq<char>>
    decreases s.len(),
{
    if s.len() == 0 {
        seq![Seq::empty()]
    } else if s.last() == ',' {
        split_commas(s.drop_last()).push(Seq::empty())
    } else {
        let parts = split_commas(s.drop_last());
        parts.update(parts.len() - 1, parts.last().push(s.last()))
    }
}

/// `d` with the pass `name` skipped, if `name` names one.
pub open spec fn skip_named(d: Disable, name: Seq<char>) -> Option<Disable> {
    if name == "parens"@ {
        Some(Disable { parens: true, ..d })
    } else if name == "dead"@ {
        Some(Disable { dead: true, ..d })
    } else if name == "iife"@ {
        Some(Disable { iife: true, ..d })
    } else if name == "force"@ {
        Some(Disable { force: true, ..d })
    } else if name == "tailloop"@ {
        Some(Disable { tailloop: true, ..d })
    } else if name == "ioloop"@ {
        Some(Disable { ioloop: true, ..d })
    } else if name == "performloop"@ {
        Some(Disable { performloop: true, ..d })
    } else {
        None
    }
}

/// The skips and the unknown names of a list of pieces, in order; blank
/// pieces are ignored.
pub open spec fn read_pieces(ps: Seq<Seq<char>>) -> (Disable, Seq<Seq<char>>)
    decreases ps.len(),
{
    if ps.len() == 0 {
        (no_skips(), Seq::empty())
    } else {
        let (d, unknown) = read_pieces(ps.drop_last());
        let name = trim_end(trim_start(ps.last()));
        if name.len() == 0 {
            (d, unknown)
        } else {
            match skip_named(d, name) {
                Some(d2) => (d2, unknown),
                None => (d, unknown.push(name)),
            }
        }
    }
}

/// A comma-separated skip list: the skips it names, and the names that
/// name no pass.
pub open spec fn read_skip_list(s: Seq<char>) -> (Disable, Seq<Seq<char>>) {
    read_pieces(split_commas(s))
}

pub(crate) proof fn lemma_trim_start(p: Seq<char>, k: int)
    requires
        0 <= k <= p.len(),
        forall|j: int| 0 <= j < k ==> is_ws(#[trigger] p[j]),
        k == p.len() || !is_ws(p[k]),
    ensures
        trim_start(p) == p.skip(k),
    decreases k,
{
    if k == 0 {
        assert(p.skip(0) =~= p);
    } else {
        let q = p.drop_first();
        assert forall|j: int| 0 <= j < k - 1 implies is_ws(#[trigger] q[j]) by {
            assert(q[j] == p[j + 1]);
        }
        if k < p.len() {
            assert(q[k - 1] == p[k]);
        }
        lemma_trim_start(q, k - 1);
        assert(q.skip(k - 1) =~= p.skip(k));
    }
}

proof fn lemma_trim_end(p: Seq<char>, k: int)
    requires
        0 <= k <= p.len(),
        forall|j: int| k <= j < p.len() ==> is_ws(#[trigger] p[j]),
        k == 0 || !is_ws(p[k - 1]),
    ensures
        trim_end(p) == p.take(k),
    decreases p.len() - k,
{
    if k == p.len() {
        assert(p.take(k) =~= p);
    } else {
        let q = p.drop_last();
        assert forall|j: int| k <= j < q.len() implies is_ws(#[trigger] q[j]) by {
            assert(q[j] == p[j]);
        }
        if k > 0 {
            assert(q[k - 1] == p[k - 1]);
        }
        assert(is_ws(p[p.len() - 1]));
        lemma_trim_end(q, k);
        assert(q.take(k) =~= p.take(k));
    }
}

pub(crate) fn char_is_ws(c: char) -> (r: bool)
    ensures
        r == is_ws(c),
{
    ('\u{9}' <= c && c <= '\u{d}') || c == ' ' || c == '\u{85}' || c == '\u{a0}' || c == '\u{1680}'
        || ('\u{2000}' <= c && c <= '\u{200a}') || c == '\u{2028}' || c == '\u{2029}' || c == '\u{202f}'
        || c == '\u{205f}' || c == '\u{3000}'
}

/// The piece without the white space at either end.
pub(crate) fn trimmed(p: &Vec<char>) -> (r: Vec<char>)
    ensures
        r@ == trim_end(trim_start(p@)),
{
    let n = p.len();
    let mut i: usize = 0;
    while i < n && char_is_ws(p[i])
        invariant
            n == p@.len(),
            i <= n,
            forall|j: int| 0 <= j < i ==> is_ws(#[trigger] p@[j]),
        decreases n - i,
    {
        i = i + 1;
    }
    proof {
        lemma_trim_start(p@, i as int);
    }
    let ghost t = p@.skip(i as int);
    let mut k: usize = n;
    while k > i && char_is_ws(p[k - 1])
        invariant
            n == p@.len(),
            i <= k <= n,
            t == p@.skip(i as int),
            forall|j: int| k <= j < n ==> is_ws(#[trigger] p@[j]),
        decreases k,
    {
        k = k - 1;
    }
    proof {
        assert forall|j: int| k - i <= j < t.len() implies is_ws(#[trigger] t[j]) by {
            assert(t[j] == p@[j + i]);
        }
        if k > i {
            assert(t[k - i - 1] == p@[k - 1]);
        }
        lemma_trim_end(t, k - i);
    }
    let mut out: Vec<char> = Vec::new();
    let mut j: usize = i;
    while j < k
        invariant
            n == p@.len(),
            i <= j <= k <= n,
            out@ == p@.subrange(i as int, j as int),
        decreases k - j,
    {
        out.push(p[j]);
        assert(out@ =~= p@.subrange(i as int, j as int + 1));
        j = j + 1;
    }
    assert(out@ =~= t.take(k - i));
    out
}

/// `d` with the pass `name` skipped, if `name` names one.
fn skip_named_exec(d: Disable, name: &str) -> (r: Option<Disable>)
    ensures
        r == skip_named(d, name@),
{
    if str_eq(name, "parens") {
        Some(Disable { parens: true, ..d })
    } else if str_eq(name, "dead") {
        Some(Disable { dead: true, ..d })
    } else if str_eq(name, "iife") {
        Some(Disable { iife: true, ..d })
    } else if str_eq(name, "force") {
        Some(Disable { force: true, ..d })
    } else if str_eq(name, "tailloop") {
        Some(Disable { tailloop: true, ..d })
    } else if str_eq(name, "ioloop") {
        Some(Disable { ioloop: true, ..d })
    } else if str_eq(name, "performloop") {
        Some(Disable { performloop: true, ..d })
    } else {
        None
    }
}

/// One piece of a skip list read into `d` and `unknown`.
fn read_piece(d: Disable, unknown: &mut Vec<String>, piece: &Vec<char>) -> (r: Disable)
    ensures
        (r, strs_model(final(unknown)@)) == ({
            let name = trim_end(trim_start(piece@));
            if name.len() == 0 {
                (d, strs_model(old(unknown)@))
            } else {
                match skip_named(d, name) {
                    Some(d2) => (d2, strs_model(old(unknown)@)),
                    None => (d, strs_model(old(unknown)@).push(name)),
                }
            }
        }),
{
    let tc = trimmed(piece);
    if tc.len() == 0 {
        return d;
    }
    let name = string_of(tc.as_slice());
    match skip_named_exec(d, name.as_str()) {
        Some(d2) => d2,
        None => {
            let ghost u0 = unknown@;
            let ghost nm = name;
            unknown.push(name);
            proof {
                let a = strs_model(unknown@);
                let b = strs_model(u0).push(nm@);
                assert forall|j: int| 0 <= j < a.len() implies a[j] == b[j] by {
                    if j < u0.len() {
                        assert(unknown@[j] == u0[j]);
                    }
                }
                assert(a =~= b);
            }
            d
        },
    }
}

impl Disable {
    /// Read a comma-separated skip list: the skips it names, and the names
    /// in it that name no pass (blank pieces are ignored).
    pub fn from_list(list: &str) -> (r: (Disable, Vec<String>))
        ensures
            r.0 == read_skip_list(list@).0,
            strs_model(r.1@) == read_skip_list(list@).1,
    {
        let cs = chars_of(list);
        let mut d = Disable::default();
        let mut unknown: Vec<String> = Vec::new();
        let mut cur: Vec<char> = Vec::new();
        let ghost mut done: Seq<Seq<char>> = Seq::empty();
        let mut i: usize = 0;
        assert(cs@.take(0) =~= Seq::<char>::empty());
        assert(strs_model(unknown@) =~= Seq::<Seq<char>>::empty());
        while i < cs.len()
            invariant
                i <= cs@.len(),
                split_commas(cs@.take(i as int)) == done.push(cur@),
                (d, strs_model(unknown@)) == read_pieces(done),
            decreases cs@.len() - i,
        {
            let c = cs[i];
            let ghost t = cs@.take(i as int + 1);
            assert(t.drop_last() =~= cs@.take(i as int));
            assert(t.last() == c);
            if c == ',' {
                d = read_piece(d, &mut unknown, &cur);
                proof {
                    assert(done.push(cur@).drop_last() =~= done);
                    done = done.push(cur@);
                }
                cur = Vec::new();
                assert(split_commas(t) =~= done.push(cur@));
            } else {
                let ghost parts = done.push(cur@);
                cur.push(c);
                assert(split_commas(t) =~= parts.update(parts.len() - 1, parts.last().push(c)));
                assert(split_commas(t) =~= done.push(cur@));
            }
            i = i + 1;
        }
        assert(cs@.take(cs@.len() as int) =~= cs@);
        d = read_piece(d, &mut unknown, &cur);
        assert(done.push(cur@).drop_last() =~= done);
        (d, unknown)
    }
}

} // verus!
