//! A small symbolic calculator core: a lexer driven by a catalog of token
//! patterns with a leftmost/longest tie-break, a recursive-descent parser
//! with implicit multiplication, a lowering pass that resolves the built-in
//! root functions, and a simplifier that rewrites expressions with exact
//! integer and rational arithmetic.

pub mod error;
pub mod expr;
pub mod lexer;
pub mod parser;
pub mod prelude;
pub mod utils;
