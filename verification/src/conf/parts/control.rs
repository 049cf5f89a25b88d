use crate::ast::ast::{Expr, Stmt};
use crate::ast::view::{ExprV, StmtV};
use std::rc::Rc;
use vstd::prelude::*;

verus! {

/// What the machine is working on: an expression to evaluate or a statement to run.
#[derive(Debug)]
pub enum Control {
    AstExpr(Rc<Expr>),
    AstStmt(Rc<Stmt>),
}

pub enum ControlV {
    Expr(ExprV),
    Stmt(StmtV),
}

impl View for Control {
    type V = ControlV;

    open spec fn view(&self) -> ControlV {
        match self {
            Control::AstExpr(e) => ControlV::Expr(e@),
            Control::AstStmt(s) => ControlV::Stmt(s@),
        }
    }
}

} // verus!
