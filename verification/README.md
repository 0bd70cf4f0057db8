# lib — the verified core of the mata-ll back end

A Verus library: the analyses and rewrites of the mata-ll compiler's back
end, each with a contract over a mathematical model and proved by Verus.

- `tir`, `types`: the typed intermediate representation.
- `demand`, `demanded`, `params`, `strict_params`: the demand lattice and
  the strictness analyses (module functions and where-bound locals).
- `structured`, `localrows`, `modrows`: the structured demand walker and
  the demand rows of local and module functions (greatest fixed points).
- `sites`, `sitewalk`, `deepresult`: the call sites the walker visits and
  the whole-program set of functions analysed under a deep result demand.
- `dce`: dead-code elimination; `fold`: the literal folds; `tirview`,
  `foldpass`, `foldrun`: the typed representation as values, and the
  whole-module fold (constant propagation, beta-reduction, splicing) to its
  fixed point.
- `lua`, `parens`, `deadbranch`, `iife`, `forcec`, `passes`: the Lua
  statement tree, its printer and the optimization passes over it.
- `tailloop`, `ioloop`, `performloop`, `loopcore`, `loops`, `census`:
  the loop conversions; `rename`, `ioreverse`, `performreverse`: the
  parameter rename is undone by renaming back, and the IO self-loop and
  direct-perform loop conversions by their reverses.
- `embed`, `names`, `text`, `tokens`, `tirshape`: source embedding, name
  mangling and text helpers.
- `prelude`: the on-demand selection of runtime-prelude definitions.
- `ast`, `desugar`, `desugarlaw`: the surface syntax tree and the desugaring of `do`
  blocks (none survives) and curried callee lambdas.
- `generate`: the generated file from an optimized module body, its
  prelude and the embedded source.

`tests/` exercises the library; `app/` holds the process-level glue
(environment variables, diagnostics on stderr).

Not part of the library: the code generator that turns the typed
representation into the Lua statement tree (module layout, pattern-match
compilation, function emission), and the folds of floating-point literals.
