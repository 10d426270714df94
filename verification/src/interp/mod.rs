//! A small Perl interpreter: integers and exact fractions, strings, lexical
//! variables, named subroutines, and the usual operators.

pub mod num;
pub mod scalar;
pub mod lexer;
pub mod ops;
pub mod env;
pub mod semantics;
pub mod machine;
pub mod eval;
pub mod api;
pub mod laws;
