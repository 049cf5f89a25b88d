use super::address::Address;
use super::environment::Env;
use crate::ast::ast::{Arguments, Expr, Name, Operation, ParamList, Stmt, Type, UOperation, Value};
use crate::ast::view::{exprs_view, params_view, ExprV, ParamV, StmtV};
use std::rc::Rc;
use vstd::prelude::*;

verus! {

/// What remains to be done once the current expression or statement is finished. The
/// continuations of statements hold the statement that follows, where there is one.
#[derive(Debug)]
pub enum Kont {
    Mt,
    ExprStmtK(Option<Rc<Stmt>>, Rc<Kont>),
    OpLK(Operation, Rc<Expr>, Rc<Kont>),
    OpRK(Operation, Rc<Value>, Rc<Kont>),
    UOpK(UOperation, Rc<Kont>),
    IfK(Rc<Stmt>, Option<Rc<Stmt>>, Option<Rc<Stmt>>, Rc<Kont>),
    ReturnK(Type, Rc<Env>, Rc<Kont>),
    CallK(Type, Rc<Env>, Rc<Env>, Rc<Stmt>, Rc<ParamList>, Rc<Arguments>, Rc<Kont>),
    FunK(Type, Rc<Env>, Rc<Kont>),
    BlockK(Rc<Env>, Option<Rc<Stmt>>, Rc<Kont>),
    AssignK(Rc<Expr>, Option<Rc<Stmt>>, Rc<Kont>),
    WhileK(Rc<Env>, Rc<Expr>, Rc<Stmt>, Option<Rc<Stmt>>, Rc<Kont>),
    LvalK(Rc<Value>, Option<Rc<Stmt>>, Rc<Kont>),
    IndexK(Rc<Name>, Rc<Kont>),
}

pub type EnvV = Map<Seq<char>, Address>;

/// The content of a continuation.
pub enum KontV {
    Mt,
    ExprStmtK(Option<StmtV>, Box<KontV>),
    OpLK(Operation, ExprV, Box<KontV>),
    OpRK(Operation, Value, Box<KontV>),
    UOpK(UOperation, Box<KontV>),
    IfK(StmtV, Option<StmtV>, Option<StmtV>, Box<KontV>),
    ReturnK(Type, EnvV, Box<KontV>),
    CallK(Type, EnvV, EnvV, StmtV, Seq<ParamV>, Seq<ExprV>, Box<KontV>),
    FunK(Type, EnvV, Box<KontV>),
    BlockK(EnvV, Option<StmtV>, Box<KontV>),
    AssignK(ExprV, Option<StmtV>, Box<KontV>),
    WhileK(EnvV, ExprV, StmtV, Option<StmtV>, Box<KontV>),
    LvalK(Value, Option<StmtV>, Box<KontV>),
    IndexK(Seq<char>, Box<KontV>),
}

/// The content of an optional statement.
pub open spec fn succ_view(s: Option<Rc<Stmt>>) -> Option<StmtV> {
    match s {
        Some(x) => Some(x@),
        None => None,
    }
}

pub open spec fn kont_view(k: Kont) -> KontV
    decreases k,
{
    match k {
        Kont::Mt => KontV::Mt,
        Kont::ExprStmtK(succ, k) => KontV::ExprStmtK(succ_view(succ), Box::new(kont_view(*k))),
        Kont::OpLK(op, e, k) => KontV::OpLK(op, e@, Box::new(kont_view(*k))),
        Kont::OpRK(op, v, k) => KontV::OpRK(op, *v, Box::new(kont_view(*k))),
        Kont::UOpK(op, k) => KontV::UOpK(op, Box::new(kont_view(*k))),
        Kont::IfK(t, f, succ, k) => KontV::IfK(
            t@,
            succ_view(f),
            succ_view(succ),
            Box::new(kont_view(*k)),
        ),
        Kont::ReturnK(typ, env, k) => KontV::ReturnK(typ, env@, Box::new(kont_view(*k))),
        Kont::CallK(typ, old_env, fun_env, body, params, args, k) => KontV::CallK(
            typ,
            old_env@,
            fun_env@,
            body@,
            params_view(params.params@),
            exprs_view(args.args@),
            Box::new(kont_view(*k)),
        ),
        Kont::FunK(typ, env, k) => KontV::FunK(typ, env@, Box::new(kont_view(*k))),
        Kont::BlockK(env, succ, k) => KontV::BlockK(env@, succ_view(succ), Box::new(kont_view(*k))),
        Kont::AssignK(lval, succ, k) => KontV::AssignK(
            lval@,
            succ_view(succ),
            Box::new(kont_view(*k)),
        ),
        Kont::WhileK(env, cond, body, succ, k) => KontV::WhileK(
            env@,
            cond@,
            body@,
            succ_view(succ),
            Box::new(kont_view(*k)),
        ),
        Kont::LvalK(v, succ, k) => KontV::LvalK(*v, succ_view(succ), Box::new(kont_view(*k))),
        Kont::IndexK(id, k) => KontV::IndexK((*id)@, Box::new(kont_view(*k))),
    }
}

impl View for Kont {
    type V = KontV;

    open spec fn view(&self) -> KontV {
        kont_view(*self)
    }
}

} // verus!
