use super::parts::address::Address;
use super::parts::kont::succ_view;
use crate::ast::ast::{find_fun, Expr, Fun, Name, Program, Stmt, Value};
use crate::ast::methods::rc_clone;
use crate::ast::view::{ExprV, FunV, StmtV};
use crate::visit::successor_visitor::{
    lemma_program_walk_pairs, lookup_pair, program_pairs, SuccessorMap, SuccessorVisitor,
};
use crate::visit::visit::Traverse;
use std::rc::Rc;
use vstd::prelude::*;

verus! {

/// What `successor_lookup` gives for a statement with no recorded successor: the unit
/// expression statement.
pub open spec fn default_successor() -> StmtV {
    StmtV::ExprStmt(Box::new(ExprV::Val(Value::UnitV)))
}

/// The statement that follows `key`.
pub open spec fn successor_of(pairs: Seq<(StmtV, StmtV)>, key: StmtV) -> StmtV {
    match lookup_pair(pairs, key) {
        Some(s) => s,
        None => default_successor(),
    }
}

/// The content of a program handler.
pub struct HandlerV {
    /// The next address to hand out.
    pub counter: nat,
    pub successors: Seq<(StmtV, StmtV)>,
    pub funs: Seq<FunV>,
}

/// What the machine consults while it runs: fresh addresses, the successor of a
/// statement, and the functions of the program.
pub struct ProgramHandler {
    pub counter: usize,
    pub successor_map: SuccessorMap,
    pub program: Program,
}

impl View for ProgramHandler {
    type V = HandlerV;

    open spec fn view(&self) -> HandlerV {
        HandlerV {
            counter: self.counter as nat,
            successors: self.successor_map@,
            funs: self.program@,
        }
    }
}

impl ProgramHandler {
    /// A handler with the successors of the statements of `prog`.
    pub fn from_program(prog: Program) -> (r: Self)
        ensures
            r@ == (HandlerV { counter: 0, successors: program_pairs(prog@), funs: prog@ }),
    {
        let mut sv = SuccessorVisitor::new();
        prog.traverse(&mut sv);
        proof {
            lemma_program_walk_pairs(prog@);
        }
        let SuccessorVisitor { map } = sv;
        Self { counter: 0, successor_map: map, program: prog }
    }

    /// A handler with the given successors and program.
    pub fn from_parts(successor_map: SuccessorMap, program: Program) -> (r: Self)
        ensures
            r@ == (HandlerV { counter: 0, successors: successor_map@, funs: program@ }),
    {
        Self { counter: 0, successor_map, program }
    }

    /// A completely empty handler.
    pub fn new() -> (r: Self)
        ensures
            r@ == (HandlerV {
                counter: 0,
                successors: Seq::empty(),
                funs: Seq::empty(),
            }),
    {
        Self { counter: 0, successor_map: SuccessorMap::new(), program: Program::new() }
    }

    /// A fresh address.
    pub fn get_address(&mut self) -> (r: Address)
        requires
            old(self).counter < usize::MAX,
        ensures
            r.a == old(self).counter,
            final(self)@ == (HandlerV { counter: old(self)@.counter + 1, ..old(self)@ }),
    {
        let addr = Address::new(self.counter);
        self.counter = self.counter + 1;
        addr
    }

    /// The statement the successor map records after `key`, if any.
    pub fn successor(&self, key: &Stmt) -> (r: Option<Rc<Stmt>>)
        ensures
            succ_view(r) == lookup_pair(self@.successors, key@),
    {
        self.successor_map.get(key)
    }

    /// The statement that follows `key`.
    pub fn successor_lookup(&self, key: Rc<Stmt>) -> (r: Rc<Stmt>)
        ensures
            r@ == successor_of(self@.successors, key@),
    {
        match self.successor_map.get(&key) {
            Some(stmt) => stmt,
            None => {
                let unit = Rc::new(Expr::Val { value: Rc::new(Value::UnitV) });
                assert(unit@ == ExprV::Val(Value::UnitV));
                Rc::new(Stmt::ExprStmt { expr: unit })
            },
        }
    }

    /// The function named `fun_name`.
    pub fn function_lookup(&self, fun_name: &Name) -> (r: Option<Rc<Fun>>)
        ensures
            match r {
                Some(f) => find_fun(self@.funs, fun_name@) == Some(f@),
                None => find_fun(self@.funs, fun_name@) is None,
            },
    {
        match self.program.get(fun_name.as_str()) {
            Some(f) => Some(Rc::new(f.duplicate())),
            None => None,
        }
    }
}

} // verus!
