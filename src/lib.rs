//! A small concatenative language: a parser from source text to instructions, and a
//! stack machine that runs them.
use vstd::prelude::*;

pub mod command;
pub mod error;
pub mod grammar;
pub mod interpreter;
pub mod laws;
pub mod ops;
pub mod parser;
pub mod semantics;
pub mod text;
pub mod trace;
pub mod value;

verus! {

} // verus!
