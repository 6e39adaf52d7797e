//! Front end of the zz compiler: turns the grammar engine's node tree into a
//! typed, location-annotated abstract syntax tree.
pub mod syntax;
pub mod ast;
pub mod names;
pub mod types;
pub mod expr;
pub mod stmt;
pub mod decl;

use vstd::prelude::*;

verus! {

/// The front end of the language: builds a [`ast::Module`] from a node tree.
pub struct ZZParser;

} // verus!
