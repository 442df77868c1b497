//! Core intermediate representation of a compiler backend: types, global
//! variables, instructions, functions, control-flow graphs and modules.
use vstd::prelude::*;

pub mod cfg;
pub mod function;
pub mod global_variable;
pub mod inst;
pub mod module;
pub mod text;
pub mod types;

verus! {

} // verus!
