//! Running a loop-conversion pass over a module: every module-level named
//! function definition whose gates hold (each judged on the module as
//! given) gets its converted body.

use vstd::prelude::*;
use crate::lua::{Stmt, Block, LStmt, stmts_model};
use crate::tailloop::{tail_convert, tail_convert_exec, opt_stmts};
use crate::performloop::{perform_convert, perform_convert_exec};
use crate::ioloop::{io_convert, io_convert_exec};

verus! {

/// Which conversion to run.
pub enum LoopPass {
    /// Self-tail-call → loop.
    Tail,
    /// Direct-perform IO self-loop → loop.
    Perform,
    /// Two-level IO self-loop → one loop closure.
    Io,
}

pub open spec fn pass_convert(p: LoopPass, ss: Seq<LStmt>, k: int, t: crate::lua::LTarget, ps: Seq<Seq<char>>, b: Seq<LStmt>) -> Option<Seq<LStmt>> {
    match p {
        LoopPass::Tail => tail_convert(ss, k, t, ps, b),
        LoopPass::Perform => perform_convert(ss, k, t, ps, b),
        LoopPass::Io => io_convert(ss, k, t, ps, b),
    }
}

/// The converted body for the statement at `k`, if it is a definition
/// that converts.
pub open spec fn pass_result_at(p: LoopPass, ss: Seq<LStmt>, k: int) -> Option<Seq<LStmt>> {
    match ss[k] {
        LStmt::Function(t, ps, b) => pass_convert(p, ss, k, t, ps, b),
        _ => None,
    }
}

/// The module after the pass.
pub open spec fn pass_output(p: LoopPass, ss: Seq<LStmt>) -> Seq<LStmt> {
    Seq::new(ss.len(), |k: int| match ss[k] {
        LStmt::Function(t, ps, b) => match pass_convert(p, ss, k, t, ps, b) {
            Some(nb) => LStmt::Function(t, ps, nb),
            None => ss[k],
        },
        _ => ss[k],
    })
}

/// Some definition of the module converts.
pub open spec fn pass_converts(p: LoopPass, ss: Seq<LStmt>) -> bool {
    exists|k: int| 0 <= k < ss.len() && #[trigger] pass_result_at(p, ss, k) is Some
}

fn convert_at(p: &LoopPass, module: &Vec<Stmt>, k: usize, target: &crate::lua::FnTarget, params: &Vec<String>, body: &Vec<Stmt>) -> (r: Option<Vec<Stmt>>)
    requires
        k < module@.len(),
    ensures
        opt_stmts(r) == pass_convert(*p, stmts_model(module@), k as int, target@, crate::lua::strs_model(params@), stmts_model(body@)),
{
    match p {
        LoopPass::Tail => tail_convert_exec(module, k, target, params, body),
        LoopPass::Perform => perform_convert_exec(module, k, target, params, body),
        LoopPass::Io => io_convert_exec(module, k, target, params, body),
    }
}

/// Run pass `p` over the module; report whether any definition converted.
pub fn run_loop_pass(module: &mut Vec<Stmt>, p: &LoopPass) -> (changed: bool)
    ensures
        stmts_model(final(module)@) == pass_output(*p, stmts_model(old(module)@)),
        changed == pass_converts(*p, stmts_model(old(module)@)),
{
    let ghost m = stmts_model(module@);
    let len = module.len();
    let mut results: Vec<Option<Vec<Stmt>>> = Vec::new();
    let mut changed = false;
    let mut k: usize = 0;
    while k < len
        invariant
            len == module@.len(),
            m == stmts_model(module@),
            k <= len,
            results@.len() == k,
            forall|j: int| 0 <= j < k ==> opt_stmts(#[trigger] results@[j]) == pass_result_at(*p, m, j),
            changed == exists|j: int| 0 <= j < k && #[trigger] pass_result_at(*p, m, j) is Some,
        decreases len - k,
    {
        assert(m[k as int] == module@[k as int]@);
        let r = match &module[k] {
            Stmt::Function { target, params, body } => convert_at(p, module, k, target, params, &body.0),
            _ => None,
        };
        assert(opt_stmts(r) == pass_result_at(*p, m, k as int));
        if r.is_some() {
            changed = true;
        }
        proof {
            if !r.is_some() {
                assert forall|j: int| 0 <= j < k + 1 && #[trigger] pass_result_at(*p, m, j) is Some implies j < k by {}
            }
        }
        results.push(r);
        k = k + 1;
    }
    let ghost res0 = results@;
    let mut src: Vec<Stmt> = Vec::new();
    std::mem::swap(&mut src, module);
    let ghost src0 = src@;
    assert(stmts_model(src0) == m);
    let mut j: usize = 0;
    assert(stmts_model(module@) =~= pass_output(*p, m).take(0));
    while src.len() > 0
        invariant
            len == src0.len(),
            m == stmts_model(src0),
            res0.len() == len,
            forall|i: int| 0 <= i < len ==> opt_stmts(#[trigger] res0[i]) == pass_result_at(*p, m, i),
            j <= len,
            src@ == src0.skip(j as int),
            results@ == res0.skip(j as int),
            stmts_model(module@) == pass_output(*p, m).take(j as int),
        decreases src@.len(),
    {
        assert(src0.skip(j as int).len() > 0);
        let st = src.remove(0);
        let res = results.remove(0);
        assert(st == src0[j as int]);
        assert(res == res0[j as int]);
        assert(m[j as int] == st@);
        let new_st = match st {
            Stmt::Function { target, params, body } => match res {
                Some(nb) => Stmt::Function { target, params, body: Block(nb) },
                None => Stmt::Function { target, params, body },
            },
            other => other,
        };
        assert(new_st@ == pass_output(*p, m)[j as int]);
        let ghost before = stmts_model(module@);
        module.push(new_st);
        assert(stmts_model(module@) =~= before.push(new_st@));
        assert(pass_output(*p, m).take(j as int + 1) =~= pass_output(*p, m).take(j as int).push(pass_output(*p, m)[j as int]));
        assert(src@ =~= src0.skip(j as int + 1));
        assert(results@ =~= res0.skip(j as int + 1));
        j = j + 1;
    }
    assert(pass_output(*p, m).take(len as int) =~= pass_output(*p, m));
    changed
}

/// The self-tail-call → loop pass over a module.
pub fn tail_loop_pass(module: &mut Vec<Stmt>) -> (changed: bool)
    ensures
        stmts_model(final(module)@) == pass_output(LoopPass::Tail, stmts_model(old(module)@)),
        changed == pass_converts(LoopPass::Tail, stmts_model(old(module)@)),
{
    run_loop_pass(module, &LoopPass::Tail)
}

/// The direct-perform IO self-loop pass over a module.
pub fn perform_loop_pass(module: &mut Vec<Stmt>) -> (changed: bool)
    ensures
        stmts_model(final(module)@) == pass_output(LoopPass::Perform, stmts_model(old(module)@)),
        changed == pass_converts(LoopPass::Perform, stmts_model(old(module)@)),
{
    run_loop_pass(module, &LoopPass::Perform)
}

/// The two-level IO self-loop pass over a module.
pub fn io_loop_pass(module: &mut Vec<Stmt>) -> (changed: bool)
    ensures
        stmts_model(final(module)@) == pass_output(LoopPass::Io, stmts_model(old(module)@)),
        changed == pass_converts(LoopPass::Io, stmts_model(old(module)@)),
{
    run_loop_pass(module, &LoopPass::Io)
}

} // verus!
