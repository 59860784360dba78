//! Front end of a small scripting-language engine: lowers a syntax tree of
//! integers, variables, arithmetic, branches, loops and function calls to a
//! control-flow-graph intermediate representation.

pub mod driver;
pub mod error;
pub mod executer;
pub mod ir;
pub mod hoisting;
pub mod lowering;
pub mod node;
pub mod resolve;
pub mod table;
