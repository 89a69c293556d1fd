//! A small interpreter for a parenthesised, prefix-notation language of the
//! Lisp family.
//!
//! Source text goes through four stages, each verified against a spec
//! function of its own:
//! - `parser`: characters to primitive tokens (`lex`);
//! - `list`: tokens to a generic tree whose nodes carry a quoted flag
//!   (`build_tree`);
//! - `expression`: the tree to a typed expression tree with the special forms
//!   `define`, `lambda`, `if`, `quote` and `eval` recognised (`lower`);
//! - `program`: evaluation over a stack of scopes (`eval_expr` in
//!   `semantics`), with the built-in procedures of `builtins`, and printing
//!   (`display`).
//!
//! Numbers are 64-bit signed integers. Arithmetic is exact: a result outside
//! that range is the runtime error "Arithmetic overflow.", division truncates
//! toward zero, and dividing by zero is an error. A word reads as a number
//! when it is an optional sign followed by decimal digits within range.
//!
//! Evaluation nests at most `program::MAX_DEPTH` levels (expression nesting
//! and calls together); deeper evaluation stops with a runtime error, so
//! every evaluation terminates.
//!
//! `laws` states and proves the general properties of the language.
pub mod text;
pub mod parser;
pub mod list;
pub mod expression;
pub mod semantics;
pub mod builtins;
pub mod display;
pub mod program;
pub mod laws;
