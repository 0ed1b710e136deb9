//! A tree-walking evaluator for a small Lisp-family expression language.
//!
//! Expression trees (`Lval`) are reduced to result values by a recursive
//! evaluator over a chained-scope environment (`Lenv`).  Every runtime
//! failure is an ordinary `Lval::Error` value, never a panic; the only
//! resource limit is an explicit evaluation-depth budget.

pub mod eval;
pub mod laws;
pub mod model;
pub mod types;
