//! The generated Lua file: the optimized module body, the runtime prelude
//! definitions it needs, and the embedded source block first when asked for.

use vstd::prelude::*;
use crate::lua::{Stmt, Block, LStmt, stmts_model, block_text};
use crate::passes::{Disable, run_with, pipeline};
use crate::prelude::{ondemand_prelude, prelude_text};
use crate::embed::{EmbedMode, embed_block, embed_text};
use crate::text::push_str;

verus! {

broadcast use vstd::string::group_string_axioms;

/// The file for a module body: the embedded-source block (at the very top,
/// so that extraction finds it before anything user-derived), then the
/// prelude the optimized body needs, a blank line, and the body.
pub open spec fn generated_text(body: Seq<LStmt>, embed: Option<(EmbedMode, Seq<char>)>, d: Disable, runtime: Seq<char>) -> Seq<char> {
    let text = block_text(pipeline(body, d), 0);
    (match embed {
        Some((m, s)) => embed_text(s, m),
        None => Seq::empty(),
    }) + prelude_text(runtime, text) + "\n"@ + text
}

pub open spec fn embed_model(e: Option<(EmbedMode, &str)>) -> Option<(EmbedMode, Seq<char>)> {
    match e {
        Some((m, s)) => Some((m, s@)),
        None => None,
    }
}

/// Generate the Lua file from the module body `stmts`: run the passes `d`
/// does not skip, print the body, and put the prelude definitions it needs
/// (taken from `runtime`) and, when asked for, the embedded source before it.
pub fn generate(stmts: Vec<Stmt>, embed_source: Option<(EmbedMode, &str)>, d: &Disable, runtime: &str) -> (r: String)
    ensures
        r@ == generated_text(stmts_model(stmts@), embed_model(embed_source), *d, runtime@),
{
    let mut ss = stmts;
    run_with(&mut ss, d);
    let block = Block(ss);
    let mut body = String::new();
    block.render(0, &mut body);
    let prelude = ondemand_prelude(runtime, body.as_str());
    let mut out = match embed_source {
        Some((mode, source)) => embed_block(source, mode),
        None => String::new(),
    };
    push_str(&mut out, prelude.as_str());
    push_str(&mut out, "\n");
    push_str(&mut out, body.as_str());
    proof {
        reveal_strlit("\n");
    }
    out
}

} // verus!
