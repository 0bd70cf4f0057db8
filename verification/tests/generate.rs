use lib::embed::{embed_block, extract_source, EmbedMode};
use lib::generate::generate;
use lib::lua::{render_stmts, Expr, Stmt};
use lib::passes::Disable;

const HEADER: &str = "-- MLL Runtime (on-demand subset)\n";
const RUNTIME: &str = "local function a()\n  return 1\nend\nlocal function b()\n  return 2\nend\n";

#[test]
fn body_after_the_prelude_it_needs() {
    let stmts = vec![Stmt::Return(Expr::call_named("a", vec![]))];
    let body = render_stmts(&vec![Stmt::Return(Expr::call_named("a", vec![]))]);
    let out = generate(stmts, None, &Disable::default(), RUNTIME);
    assert_eq!(out, format!("{}local function a()\n  return 1\nend\n\n{}", HEADER, body));
}

#[test]
fn passes_run_before_printing() {
    // The force collapse turns a returned `__force(42)` into `42`.
    let stmts = vec![Stmt::Return(Expr::force(Expr::lit("42")))];
    let out = generate(stmts, None, &Disable::default(), RUNTIME);
    let body = render_stmts(&vec![Stmt::Return(Expr::lit("42"))]);
    assert_eq!(out, format!("{}\n{}", HEADER, body));
}

#[test]
fn embedded_source_comes_first_and_round_trips() {
    let stmts = vec![Stmt::Return(Expr::lit("1"))];
    let src = "main = print 1\n";
    let out = generate(stmts, Some((EmbedMode::Var, src)), &Disable::default(), RUNTIME);
    assert!(out.starts_with(&embed_block(src, EmbedMode::Var)));
    assert_eq!(extract_source(&out).unwrap(), (src.to_string(), EmbedMode::Var));
}
