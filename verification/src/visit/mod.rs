//! Traversals of the syntax tree.

pub mod successor_visitor;
pub mod type_visit;
pub mod visit;
pub mod viz;

pub use self::successor_visitor::SuccessorVisitor;
pub use self::visit::{Traverse, Visitor};
pub use self::viz::{expr_to_dot, program_to_dot, GraphVizVisitor};
