//! Abstract syntax of programs, their mathematical views, and helpers on them.

pub mod ast;
pub mod eq;
pub mod methods;
pub mod view;

pub use self::ast::{
    Arguments, Expr, Fun, Name, Node, Operation, Param, ParamList, Program, Stmt, Type,
    UOperation, Value,
};
pub use self::view::{ExprV, FunV, ParamV, StmtV};
