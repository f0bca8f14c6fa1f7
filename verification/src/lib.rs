//! A verified tree-walking evaluator for a small Lisp-family expression
//! language: runtime values, lexically scoped environments with shared
//! mutable binding tables, and an expression evaluator with the special
//! forms `quote`, `if`, `define`, `lambda` and `let`.

pub mod builtin;
pub mod env;
pub mod error;
pub mod eval;
pub mod laws;
pub mod lexer;
pub mod parser;
pub mod render;
pub mod value;

use vstd::prelude::*;

verus! {

/// Name of the shell this language backs.
pub fn shell_name() -> (r: &'static str)
    ensures
        r@ == "Cracked Shell"@,
{
    "Cracked Shell"
}

/// Version of the library.
pub fn shell_version() -> (r: &'static str)
    ensures
        r@ == "0.1.0"@,
{
    "0.1.0"
}

} // verus!
