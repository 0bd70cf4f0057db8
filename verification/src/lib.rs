//! Verified core of the mata-ll compiler back end.

pub mod text;
pub mod tokens;
pub mod lua;
pub mod luaopt;
pub mod luacopy;
pub mod parens;
pub mod deadbranch;
pub mod iife;
pub mod passes;
pub mod fold;
pub mod structured;
pub mod localrows;
pub mod modrows;
pub mod tirshape;
pub mod forcec;
pub mod prelude;
pub mod census;
pub mod tailloop;
pub mod loopcore;
pub mod performloop;
pub mod ioloop;
pub mod loops;
pub mod rename;
pub mod ioreverse;
pub mod performreverse;
pub mod ast;
pub mod desugar;
pub mod desugarlaw;
pub mod generate;
pub mod sites;
pub mod sitewalk;
pub mod deepresult;
pub mod tirview;
pub mod foldpass;
pub mod foldrun;
pub mod embed;
pub mod names;
pub mod types;
pub mod tir;
pub mod demand;
pub mod dce;
pub mod demanded;
pub mod params;
pub mod strict_params;
