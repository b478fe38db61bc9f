//! Incremental parser for S-expressions with line comments and string literals.
use vstd::prelude::*;

pub mod tree;
pub mod model;
pub mod parser;
pub mod laws;

pub use model::SExpressionParseError;
pub use parser::{parse, SExpressionParser};
pub use tree::{Node, NodeElement};

verus! {

} // verus!
