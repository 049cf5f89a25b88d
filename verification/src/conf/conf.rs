use super::parts::address::Address;
use super::parts::control::{Control, ControlV};
use super::parts::environment::Env;
use super::parts::kont::{succ_view, Kont, KontV};
use crate::visit::successor_visitor::for_head_exec;
use super::parts::store::Store;
use super::prog_handler::{HandlerV, ProgramHandler};
use super::semantics::{
    fill_array, finish, fresh, goto, invoke, next_of, step, step_expr, step_stmt, ConfigV, Halt,
};
use crate::ast::ast::{Arguments, Expr, ParamList, Stmt, Type, Value};
use crate::ast::methods::rc_clone;
use crate::ast::view::{
    exprs_view, lemma_exprs_view, lemma_stmts_view, opt_expr_view, params_view, stmts_view, ExprV,
    StmtV,
};
use std::rc::Rc;
use vstd::prelude::*;

verus! {

/// A state of the machine: control, environment, store and continuation.
#[derive(Debug)]
pub struct Config {
    c: Control,
    e: Rc<Env>,
    s: Rc<Store>,
    k: Rc<Kont>,
}

impl View for Config {
    type V = ConfigV;

    closed spec fn view(&self) -> ConfigV {
        ConfigV { c: self.c@, e: (*self.e)@, s: (*self.s)@, k: (*self.k)@ }
    }
}

/// The handler after a step: only the next fresh address may have moved.
pub open spec fn handler_after(before: HandlerV, after: HandlerV) -> bool {
    after.successors == before.successors && after.funs == before.funs && before.counter
        <= after.counter
}

/// Whether a transition computed by the machine is the one `s` states, the handler's next
/// fresh address being `counter` after it.
pub open spec fn agrees(r: Result<Config, Halt>, s: Result<(ConfigV, nat), Halt>, counter: nat) -> bool {
    match r {
        Ok(c2) => s == Ok::<(ConfigV, nat), Halt>((c2@, counter)),
        Err(x) => s == Err::<(ConfigV, nat), Halt>(x),
    }
}

/// The arguments after the first.
/// A copy of an optional statement handle.
fn copy_succ(s: &Option<Rc<Stmt>>) -> (r: Option<Rc<Stmt>>)
    ensures
        succ_view(r) == succ_view(*s),
{
    match s {
        Some(x) => Some(rc_clone(x)),
        None => None,
    }
}

fn rest_args(a: &Arguments) -> (r: Arguments)
    requires
        a.args@.len() > 0,
    ensures
        r.args@ == a.args@.drop_first(),
{
    let mut out: Vec<Rc<Expr>> = Vec::new();
    let mut k: usize = 1;
    while k < a.args.len()
        invariant
            1 <= k <= a.args.len(),
            out@ == a.args@.subrange(1, k as int),
        decreases a.args.len() - k,
    {
        out.push(rc_clone(&a.args[k]));
        k = k + 1;
        assert(out@ =~= a.args@.subrange(1, k as int));
    }
    assert(out@ =~= a.args@.drop_first());
    Arguments { args: out }
}

/// The parameters after the first.
fn rest_params(p: &ParamList) -> (r: ParamList)
    requires
        p.params@.len() > 0,
    ensures
        r.params@ == p.params@.drop_first(),
{
    let mut out: Vec<crate::ast::ast::Param> = Vec::new();
    let mut k: usize = 1;
    while k < p.params.len()
        invariant
            1 <= k <= p.params.len(),
            out@ == p.params@.subrange(1, k as int),
        decreases p.params.len() - k,
    {
        out.push(p.params[k].duplicate());
        k = k + 1;
        assert(out@ =~= p.params@.subrange(1, k as int));
    }
    assert(out@ =~= p.params@.drop_first());
    ParamList { params: out }
}

impl Config {
    /// The state that starts running the statement `s`.
    pub fn from_stmt(s: &Rc<Stmt>) -> (r: Self)
        ensures
            r@ == (ConfigV {
                c: ControlV::Stmt((*s)@),
                e: Map::empty(),
                s: Map::empty(),
                k: KontV::Mt,
            }),
    {
        Self {
            c: Control::AstStmt(rc_clone(s)),
            e: Rc::new(Env::new()),
            s: Rc::new(Store::new()),
            k: Rc::new(Kont::Mt),
        }
    }

    /// The state that starts evaluating the expression `e`.
    pub fn from_expr(e: Expr) -> (r: Self)
        ensures
            r@ == (ConfigV {
                c: ControlV::Expr(e@),
                e: Map::empty(),
                s: Map::empty(),
                k: KontV::Mt,
            }),
    {
        Self {
            c: Control::AstExpr(Rc::new(e)),
            e: Rc::new(Env::new()),
            s: Rc::new(Store::new()),
            k: Rc::new(Kont::Mt),
        }
    }

    /// The control of this state.
    pub fn control(&self) -> (r: &Control)
        ensures
            r@ == self@.c,
    {
        &self.c
    }

    /// The environment of this state.
    pub fn env(&self) -> (r: &Env)
        ensures
            r@ == self@.e,
    {
        &*self.e
    }

    /// The store of this state.
    pub fn store(&self) -> (r: &Store)
        ensures
            r@ == self@.s,
    {
        &*self.s
    }

    /// The continuation of this state.
    pub fn kont(&self) -> (r: &Kont)
        ensures
            r@ == self@.k,
    {
        &*self.k
    }

    fn with(&self, c: Control, k: Rc<Kont>) -> (r: Self)
        ensures
            r@ == (ConfigV { c: c@, k: (*k)@, ..self@ }),
    {
        Self { c, e: rc_clone(&self.e), s: rc_clone(&self.s), k }
    }

    fn with_env(&self, c: Control, e: Rc<Env>, k: Rc<Kont>) -> (r: Self)
        ensures
            r@ == (ConfigV { c: c@, e: (*e)@, k: (*k)@, ..self@ }),
    {
        Self { c, e, s: rc_clone(&self.s), k }
    }
}


/// What follows once the statement being run is finished; see `finish`.
fn finish_exec(e: Rc<Env>, s: Rc<Store>, k: &Rc<Kont>) -> (r: Result<Config, Halt>)
    ensures
        forall|n: nat| agrees(r, #[trigger] finish((*e)@, (*s)@, (**k)@, n), n),
    decreases k,
{
    match &**k {
        Kont::BlockK(env, succ, k2) => match succ {
            Some(x) => Ok(Config { c: Control::AstStmt(rc_clone(x)), e: rc_clone(env), s, k: rc_clone(k2) }),
            None => {
                let ghost ev = (*e)@;
                let ghost sv = (*s)@;
                let r = finish_exec(rc_clone(env), s, k2);
                assert forall|n: nat| agrees(r, #[trigger] finish(ev, sv, (**k)@, n), n) by {
                    assert(finish(ev, sv, (**k)@, n) == finish((**env)@, sv, (**k2)@, n));
                }
                r
            },
        },
        Kont::WhileK(env, cond, _, _, _) => Ok(
            Config { c: Control::AstExpr(rc_clone(cond)), e: rc_clone(env), s, k: rc_clone(k) },
        ),
        Kont::FunK(typ, env, k2) => Ok(
            Config {
                c: Control::AstExpr(Rc::new(Expr::Val { value: Rc::new(Value::UnitV) })),
                e,
                s,
                k: Rc::new(Kont::ReturnK(typ.duplicate(), rc_clone(env), rc_clone(k2))),
            },
        ),
        Kont::Mt => Ok(
            Config {
                c: Control::AstExpr(Rc::new(Expr::Val { value: Rc::new(Value::IntV(0)) })),
                e,
                s,
                k: rc_clone(k),
            },
        ),
        _ => Err(Halt::UnexpectedKont),
    }
}

/// The statement `next` with the continuation `k` kept; see `goto`.
fn goto_exec(next: &Option<Rc<Stmt>>, e: Rc<Env>, s: Rc<Store>, k: &Rc<Kont>) -> (r: Result<
    Config,
    Halt,
>)
    ensures
        forall|n: nat| agrees(r, #[trigger] goto(succ_view(*next), (*e)@, (*s)@, (**k)@, n), n),
{
    match next {
        Some(x) => Ok(Config { c: Control::AstStmt(rc_clone(x)), e, s, k: rc_clone(k) }),
        None => finish_exec(e, s, k),
    }
}

impl Config {
    /// One transition from a state whose control is the statement `s`.
    fn step_stmt_exec(&self, s: &Rc<Stmt>, handler: &mut ProgramHandler) -> (r: Result<
        Config,
        Halt,
    >)
        ensures
            agrees(r, step_stmt(self@, old(handler)@, (**s)@), final(handler)@.counter),
            handler_after(old(handler)@, final(handler)@),
    {
        let next = handler.successor(s);
        match &**s {
            Stmt::ExprStmt { .. } => Ok(self.push_for_stmt(s, next, handler)),
            Stmt::If { .. } => Ok(self.push_for_stmt(s, next, handler)),
            Stmt::Assign { .. } => Ok(self.push_for_stmt(s, next, handler)),
            Stmt::While { .. } => Ok(self.push_for_stmt(s, next, handler)),
            Stmt::Block { .. } => self.enter_block(s, next, handler),
            Stmt::Decl { .. } => self.declare(s, next, handler),
            Stmt::Return { .. } => self.jump(s),
            Stmt::Break => self.jump(s),
            Stmt::Continue => self.jump(s),
            Stmt::ForD { init, condition, update, body } => {
                let head = for_head_exec(init, condition, update, body);
                proof {
                    lemma_stmts_view(head@);
                }
                Ok(
                    self.with(
                        Control::AstStmt(rc_clone(&head[0])),
                        Rc::new(Kont::BlockK(rc_clone(&self.e), next, rc_clone(&self.k))),
                    ),
                )
            },
        }
    }

    /// The statements that evaluate an expression first, remembering what to do with it
    /// and the statement that follows.
    fn push_for_stmt(&self, s: &Rc<Stmt>, next: Option<Rc<Stmt>>, handler: &ProgramHandler) -> (r: Config)
        requires
            (**s) is ExprStmt || (**s) is If || (**s) is Assign || (**s) is While,
            succ_view(next) == next_of(handler@, (**s)@),
        ensures
            step_stmt(self@, handler@, (**s)@) == Ok::<(ConfigV, nat), Halt>(
                (r@, handler@.counter),
            ),
    {
        match &**s {
            Stmt::ExprStmt { expr } => self.with(
                Control::AstExpr(rc_clone(expr)),
                Rc::new(Kont::ExprStmtK(next, rc_clone(&self.k))),
            ),
            Stmt::If { condition, then_branch, else_branch } => {
                let f = match else_branch {
                    Some(x) => Some(rc_clone(x)),
                    None => None,
                };
                self.with(
                    Control::AstExpr(rc_clone(condition)),
                    Rc::new(Kont::IfK(rc_clone(then_branch), f, next, rc_clone(&self.k))),
                )
            },
            Stmt::Assign { lhs, rhs } => self.with(
                Control::AstExpr(rc_clone(rhs)),
                Rc::new(Kont::AssignK(rc_clone(lhs), next, rc_clone(&self.k))),
            ),
            Stmt::While { condition, body } => self.with(
                Control::AstExpr(rc_clone(condition)),
                Rc::new(
                    Kont::WhileK(
                        rc_clone(&self.e),
                        rc_clone(condition),
                        rc_clone(body),
                        next,
                        rc_clone(&self.k),
                    ),
                ),
            ),
            _ => self.with(Control::AstStmt(rc_clone(s)), rc_clone(&self.k)),
        }
    }

    /// Starts a block at its first statement; an empty block goes on at its successor.
    fn enter_block(&self, s: &Rc<Stmt>, next: Option<Rc<Stmt>>, handler: &ProgramHandler) -> (r: Result<Config, Halt>)
        requires
            (**s) is Block,
            succ_view(next) == next_of(handler@, (**s)@),
        ensures
            agrees(r, step_stmt(self@, handler@, (**s)@), handler@.counter),
    {
        match &**s {
            Stmt::Block { stmts } => {
                proof {
                    lemma_stmts_view(stmts@);
                }
                if stmts.len() > 0 {
                    Ok(
                        self.with(
                            Control::AstStmt(rc_clone(&stmts[0])),
                            Rc::new(Kont::BlockK(rc_clone(&self.e), next, rc_clone(&self.k))),
                        ),
                    )
                } else {
                    goto_exec(&next, rc_clone(&self.e), rc_clone(&self.s), &self.k)
                }
            },
            _ => Err(Halt::UnexpectedKont),
        }
    }

    /// Binds the declared name to a fresh address holding the unit value; an initializer
    /// is then evaluated and assigned to the name.
    fn declare(&self, s: &Rc<Stmt>, next: Option<Rc<Stmt>>, handler: &mut ProgramHandler) -> (r: Result<Config, Halt>)
        requires
            (**s) is Decl,
            succ_view(next) == next_of(old(handler)@, (**s)@),
        ensures
            agrees(r, step_stmt(self@, old(handler)@, (**s)@), final(handler)@.counter),
            handler_after(old(handler)@, final(handler)@),
    {
        match &**s {
            Stmt::Decl { name, expr, .. } => {
                if handler.counter == usize::MAX {
                    return Err(Halt::AddressesExhausted);
                }
                let addr = handler.get_address();
                let mut new_env = self.e.duplicate();
                new_env.insert(name.clone(), addr);
                let mut new_store = self.s.duplicate();
                new_store.insert(addr, Value::UnitV);
                match expr {
                    Some(x) => Ok(
                        Config {
                            c: Control::AstExpr(rc_clone(x)),
                            e: Rc::new(new_env),
                            s: Rc::new(new_store),
                            k: Rc::new(
                                Kont::AssignK(
                                    Rc::new(Expr::Var { name: name.clone() }),
                                    next,
                                    rc_clone(&self.k),
                                ),
                            ),
                        },
                    ),
                    None => goto_exec(&next, Rc::new(new_env), Rc::new(new_store), &self.k),
                }
            },
            _ => Err(Halt::AddressesExhausted),
        }
    }

    /// `return`, `break` and `continue`: they unwind the continuation.
    fn jump(&self, s: &Rc<Stmt>) -> (r: Result<Config, Halt>)
        requires
            (**s) is Return || (**s) is Break || (**s) is Continue,
        ensures
            forall|h: HandlerV| agrees(r, #[trigger] step_stmt(self@, h, (**s)@), h.counter),
    {
        match &**s {
            Stmt::Return { expr } => match &*self.k {
                Kont::BlockK(_, _, k) => Ok(self.with(Control::AstStmt(rc_clone(s)), rc_clone(k))),
                Kont::ReturnK(_, _, _) => Ok(
                    self.with(Control::AstExpr(rc_clone(expr)), rc_clone(&self.k)),
                ),
                Kont::FunK(typ, env, k) => Ok(
                    self.with(
                        Control::AstExpr(rc_clone(expr)),
                        Rc::new(Kont::ReturnK(typ.duplicate(), rc_clone(env), rc_clone(k))),
                    ),
                ),
                Kont::Mt => Ok(self.with(Control::AstExpr(rc_clone(expr)), rc_clone(&self.k))),
                _ => Err(Halt::UnexpectedKont),
            },
            Stmt::Break => match &*self.k {
                Kont::WhileK(env, _, _, succ, k) => goto_exec(succ, rc_clone(env), rc_clone(&self.s), k),
                Kont::BlockK(env, _, k) => Ok(
                    self.with_env(Control::AstStmt(rc_clone(s)), rc_clone(env), rc_clone(k)),
                ),
                _ => Err(Halt::UnexpectedKont),
            },
            _ => match &*self.k {
                Kont::WhileK(env, cond, _, _, _) => Ok(
                    self.with_env(
                        Control::AstExpr(rc_clone(cond)),
                        rc_clone(env),
                        rc_clone(&self.k),
                    ),
                ),
                Kont::BlockK(env, _, k) => Ok(
                    self.with_env(Control::AstStmt(rc_clone(s)), rc_clone(env), rc_clone(k)),
                ),
                _ => Err(Halt::UnexpectedKont),
            },
        }
    }
}

impl Config {
    /// One transition from a state whose control is the expression `e`.
    fn step_expr_exec(&self, e: &Rc<Expr>, handler: &mut ProgramHandler) -> (r: Result<
        Config,
        Halt,
    >)
        ensures
            agrees(r, step_expr(self@, old(handler)@, (**e)@), final(handler)@.counter),
            handler_after(old(handler)@, final(handler)@),
    {
        match &**e {
            Expr::BinaryOp { .. } => Ok(self.push_for_expr(e)),
            Expr::UnaryOp { .. } => Ok(self.push_for_expr(e)),
            Expr::Index { .. } => Ok(self.push_for_expr(e)),
            Expr::Array { .. } => self.alloc_array(e, handler),
            Expr::Var { name } => match self.e.get(name.as_str()) {
                Some(addr) => Ok(
                    self.with(
                        Control::AstExpr(
                            Rc::new(Expr::Val { value: Rc::new(Value::AddrV(addr)) }),
                        ),
                        rc_clone(&self.k),
                    ),
                ),
                None => Err(Halt::UndefinedVariable),
            },
            Expr::CallRef { .. } => Err(Halt::CallRefUnsupported),
            Expr::Val { value } => match **value {
                Value::AddrV(a) => {
                    if let Kont::LvalK(_, _, _) = &*self.k {
                        self.invoke_kont(**value, handler)
                    } else {
                        match self.s.get(&a) {
                            Some(v) => Ok(
                                self.with(
                                    Control::AstExpr(Rc::new(Expr::Val { value: Rc::new(v) })),
                                    rc_clone(&self.k),
                                ),
                            ),
                            None => Err(Halt::AddressNotFound),
                        }
                    }
                },
                _ => self.invoke_kont(**value, handler),
            },
            Expr::CallName { .. } => self.call_name(e, handler),
        }
    }

    /// The expressions that evaluate a part first, remembering what to do with it.
    fn push_for_expr(&self, e: &Rc<Expr>) -> (r: Config)
        requires
            (**e) is BinaryOp || (**e) is UnaryOp || (**e) is Index,
        ensures
            forall|h: HandlerV| #[trigger] step_expr(self@, h, (**e)@) == Ok::<(ConfigV, nat), Halt>(
                (r@, h.counter),
            ),
    {
        match &**e {
            Expr::BinaryOp { lhs, op, rhs } => self.with(
                Control::AstExpr(rc_clone(lhs)),
                Rc::new(Kont::OpLK(*op, rc_clone(rhs), rc_clone(&self.k))),
            ),
            Expr::UnaryOp { op, expr } => self.with(
                Control::AstExpr(rc_clone(expr)),
                Rc::new(Kont::UOpK(*op, rc_clone(&self.k))),
            ),
            Expr::Index { array, index } => self.with(
                Control::AstExpr(rc_clone(index)),
                Rc::new(Kont::IndexK(Rc::new(array.clone()), rc_clone(&self.k))),
            ),
            _ => self.with(Control::AstExpr(rc_clone(e)), rc_clone(&self.k)),
        }
    }

    /// Lays out the literal elements of an array at fresh addresses; the array value
    /// records the first address and the number of elements.
    #[verifier::loop_isolation(false)]
    fn alloc_array(&self, e: &Rc<Expr>, handler: &mut ProgramHandler) -> (r: Result<
        Config,
        Halt,
    >)
        requires
            (**e) is Array,
        ensures
            agrees(r, step_expr(self@, old(handler)@, (**e)@), final(handler)@.counter),
            handler_after(old(handler)@, final(handler)@),
    {
        match &**e {
            Expr::Array { elements: exprs } => {
                let ghost ev = exprs_view(exprs@);
                proof {
                    lemma_exprs_view(exprs@);
                }
                if handler.counter == usize::MAX {
                    return Err(Halt::AddressesExhausted);
                }
                let ghost h0 = handler@;
                let addr = handler.get_address();
                let mut new_store = self.s.duplicate();
                if exprs.len() > 0 {
                    if let Expr::Val { value } = &*exprs[0] {
                        new_store.insert(addr, **value);
                    }
                }
                let ghost s1 = new_store@;
                let mut i: usize = 1;
                while i < exprs.len()
                    invariant
                        1 <= i,
                        ev == exprs_view(exprs@),
                        ev.len() == exprs@.len(),
                        forall|j: int| 0 <= j < ev.len() ==> #[trigger] ev[j] == expr_view_of(exprs@[j]),
                        fill_array(ev, 1, s1, h0.counter + 1) == fill_array(
                            ev,
                            i as int,
                            new_store@,
                            handler@.counter,
                        ),
                        handler_after(h0, handler@),
                    decreases exprs.len() - i,
                {
                    if let Expr::Val { value } = &*exprs[i] {
                        if handler.counter == usize::MAX {
                            return Err(Halt::AddressesExhausted);
                        }
                        let a = handler.get_address();
                        new_store.insert(a, **value);
                    }
                    i = i + 1;
                }
                Ok(
                    Config {
                        c: Control::AstExpr(
                            Rc::new(
                                Expr::Val {
                                    value: Rc::new(
                                        Value::ArrayV { size: exprs.len(), start_of_array: addr },
                                    ),
                                },
                            ),
                        ),
                        e: rc_clone(&self.e),
                        s: Rc::new(new_store),
                        k: rc_clone(&self.k),
                    },
                )
            },
            _ => Err(Halt::AddressesExhausted),
        }
    }

    /// Starts a call by name: evaluates the first argument, or enters a body that takes
    /// none.
    fn call_name(&self, e: &Rc<Expr>, handler: &ProgramHandler) -> (r: Result<Config, Halt>)
        requires
            (**e) is CallName,
        ensures
            agrees(r, step_expr(self@, handler@, (**e)@), handler@.counter),
    {
        match &**e {
            Expr::CallName { callee, args } => match handler.function_lookup(callee) {
                None => Err(Halt::UnknownFunction),
                Some(f) => {
                    proof {
                        lemma_exprs_view(args.args@);
                    }
                    if args.args.len() > 0 {
                        let rest = rest_args(args);
                        proof {
                            lemma_exprs_view(rest.args@);
                        }
                        assert(exprs_view(rest.args@) =~= exprs_view(args.args@).drop_first());
                        Ok(
                            self.with(
                                Control::AstExpr(rc_clone(&args.args[0])),
                                Rc::new(
                                    Kont::CallK(
                                        f.typ.duplicate(),
                                        rc_clone(&self.e),
                                        Rc::new(Env::new()),
                                        rc_clone(&f.body),
                                        rc_clone(&f.params),
                                        Rc::new(rest),
                                        rc_clone(&self.k),
                                    ),
                                ),
                            ),
                        )
                    } else {
                        Ok(
                            self.with_env(
                                Control::AstStmt(rc_clone(&f.body)),
                                Rc::new(Env::new()),
                                Rc::new(Kont::FunK(f.typ.duplicate(), rc_clone(&self.e), rc_clone(&self.k))),
                            ),
                        )
                    }
                },
            },
            _ => Err(Halt::UnknownFunction),
        }
    }
}

pub open spec fn expr_view_of(e: Rc<Expr>) -> ExprV {
    (*e)@
}

impl Config {
    /// Hands the value `v1` to the continuation.
    fn invoke_kont(&self, v1: Value, handler: &mut ProgramHandler) -> (r: Result<Config, Halt>)
        ensures
            agrees(r, invoke(self@, old(handler)@, v1), final(handler)@.counter),
            handler_after(old(handler)@, final(handler)@),
    {
        match &*self.k {
            Kont::CallK(..) => self.bind_argument(v1, handler),
            Kont::LvalK(..) => self.deliver_store(v1),
            Kont::OpLK(..) => self.deliver_operator(v1),
            Kont::OpRK(..) => self.deliver_operator(v1),
            Kont::UOpK(..) => self.deliver_operator(v1),
            Kont::ReturnK(..) => self.deliver_return(v1),
            Kont::FunK(..) => self.deliver_return(v1),
            Kont::Mt => self.deliver_return(v1),
            _ => self.deliver_control(v1),
        }
    }

    /// An assignment's target address receives the assigned value.
    fn deliver_store(&self, v1: Value) -> (r: Result<Config, Halt>)
        requires
            (*self.k) is LvalK,
        ensures
            forall|h: HandlerV| agrees(r, #[trigger] invoke(self@, h, v1), h.counter),
    {
        match &*self.k {
            Kont::LvalK(val, succ, k) => match v1 {
                Value::AddrV(addr) => {
                    let mut new_store = self.s.duplicate();
                    new_store.insert(addr, **val);
                    goto_exec(succ, rc_clone(&self.e), Rc::new(new_store), k)
                },
                _ => Err(Halt::NotAnAddress),
            },
            _ => Err(Halt::NotAnAddress),
        }
    }

    /// Operators: the left operand waits for the right, which then meets the operator.
    fn deliver_operator(&self, v1: Value) -> (r: Result<Config, Halt>)
        requires
            (*self.k) is OpLK || (*self.k) is OpRK || (*self.k) is UOpK,
        ensures
            forall|h: HandlerV| agrees(r, #[trigger] invoke(self@, h, v1), h.counter),
    {
        match &*self.k {
            Kont::OpLK(op, expr, k) => Ok(
                self.with(
                    Control::AstExpr(rc_clone(expr)),
                    Rc::new(Kont::OpRK(*op, Rc::new(v1), rc_clone(k))),
                ),
            ),
            Kont::OpRK(op, v2, k) => match op.try_call(&**v2, &v1) {
                Some(v) => Ok(
                    self.with(
                        Control::AstExpr(Rc::new(Expr::Val { value: Rc::new(v) })),
                        rc_clone(k),
                    ),
                ),
                None => Err(Halt::OperationFailed),
            },
            Kont::UOpK(op, k) => match op.try_call(&v1) {
                Some(v) => Ok(
                    self.with(
                        Control::AstExpr(Rc::new(Expr::Val { value: Rc::new(v) })),
                        rc_clone(k),
                    ),
                ),
                None => Err(Halt::OperationFailed),
            },
            _ => Err(Halt::OperationFailed),
        }
    }

    /// A returned value, a value reaching a function body's end, or the final value.
    fn deliver_return(&self, v1: Value) -> (r: Result<Config, Halt>)
        requires
            (*self.k) is ReturnK || (*self.k) is FunK || (*self.k) is Mt,
        ensures
            forall|h: HandlerV| agrees(r, #[trigger] invoke(self@, h, v1), h.counter),
    {
        match &*self.k {
            Kont::ReturnK(typ, env, k) => {
                if let Value::ArrayV { .. } = v1 {
                    return Err(Halt::UntypedValue);
                }
                if v1.get_type().same(typ) {
                    Ok(
                        self.with_env(
                            Control::AstExpr(Rc::new(Expr::Val { value: Rc::new(v1) })),
                            rc_clone(env),
                            rc_clone(k),
                        ),
                    )
                } else {
                    Err(Halt::ReturnTypeMismatch)
                }
            },
            Kont::FunK(_, _, _) => Err(Halt::ExpectedReturn),
            _ => {
                if let Value::ArrayV { .. } = v1 {
                    return Err(Halt::UntypedValue);
                }
                if v1.get_type().same(&Type::IntT) {
                    Err(Halt::Exited(v1))
                } else {
                    Err(Halt::InvalidExitType)
                }
            },
        }
    }

    /// The continuations that pick the next statement or expression from the value.
    fn deliver_control(&self, v1: Value) -> (r: Result<Config, Halt>)
        requires
            (*self.k) is IfK || (*self.k) is AssignK || (*self.k) is BlockK || (*self.k) is ExprStmtK
                || (*self.k) is WhileK || (*self.k) is IndexK,
        ensures
            forall|h: HandlerV| agrees(r, #[trigger] invoke(self@, h, v1), h.counter),
    {
        match &*self.k {
            Kont::IfK(true_b, false_b, succ, k) => match v1 {
                Value::BoolV(true) => Ok(
                    self.with(
                        Control::AstStmt(rc_clone(true_b)),
                        Rc::new(Kont::BlockK(rc_clone(&self.e), copy_succ(succ), rc_clone(k))),
                    ),
                ),
                Value::BoolV(false) => match false_b {
                    Some(f) => Ok(
                        self.with(
                            Control::AstStmt(rc_clone(f)),
                            Rc::new(Kont::BlockK(rc_clone(&self.e), copy_succ(succ), rc_clone(k))),
                        ),
                    ),
                    None => goto_exec(succ, rc_clone(&self.e), rc_clone(&self.s), k),
                },
                _ => Err(Halt::NonBoolean),
            },
            Kont::AssignK(lval, succ, k) => Ok(
                self.with(
                    Control::AstExpr(rc_clone(lval)),
                    Rc::new(Kont::LvalK(Rc::new(v1), copy_succ(succ), rc_clone(k))),
                ),
            ),
            Kont::BlockK(env, succ, k) => goto_exec(succ, rc_clone(env), rc_clone(&self.s), k),
            Kont::ExprStmtK(succ, k) => goto_exec(succ, rc_clone(&self.e), rc_clone(&self.s), k),
            Kont::WhileK(env, _, body, succ, k) => match v1 {
                Value::BoolV(true) => Ok(
                    self.with(Control::AstStmt(rc_clone(body)), rc_clone(&self.k)),
                ),
                Value::BoolV(false) => goto_exec(succ, rc_clone(env), rc_clone(&self.s), k),
                _ => Err(Halt::NonBoolean),
            },
            Kont::IndexK(id, k) => match self.e.get((**id).as_str()) {
                Some(addr) => Ok(
                    self.with(
                        Control::AstExpr(
                            Rc::new(Expr::Val { value: Rc::new(Value::AddrV(addr)) }),
                        ),
                        rc_clone(k),
                    ),
                ),
                None => Err(Halt::UndefinedVariable),
            },
            _ => Err(Halt::NonBoolean),
        }
    }

    /// A call's argument is stored at a fresh address bound to its parameter; the next
    /// argument is evaluated, or the body entered after the last.
    fn bind_argument(&self, v1: Value, handler: &mut ProgramHandler) -> (r: Result<
        Config,
        Halt,
    >)
        requires
            (*self.k) is CallK,
        ensures
            agrees(r, invoke(self@, old(handler)@, v1), final(handler)@.counter),
            handler_after(old(handler)@, final(handler)@),
    {
        match &*self.k {
            Kont::CallK(typ, old_env, fun_env, body, params, args, k) => {
                if handler.counter == usize::MAX {
                    return Err(Halt::AddressesExhausted);
                }
                let addr = handler.get_address();
                proof {
                    lemma_exprs_view(args.args@);
                }
                let na = args.args.len();
                let np = params.params.len();
                if na > 0 && np > 0 {
                    if let Value::ArrayV { .. } = v1 {
                        return Err(Halt::UntypedValue);
                    }
                    let pfirst = &params.params[0];
                    if !v1.get_type().same(&pfirst.typ) {
                        return Err(Halt::ArgumentTypeMismatch);
                    }
                    let mut new_store = self.s.duplicate();
                    new_store.insert(addr, v1);
                    let mut new_env = fun_env.duplicate();
                    new_env.insert(pfirst.name.clone(), addr);
                    let rest_a = rest_args(args);
                    let rest_p = rest_params(params);
                    proof {
                        lemma_exprs_view(rest_a.args@);
                        assert(exprs_view(rest_a.args@) =~= exprs_view(args.args@).drop_first());
                        assert(params_view(rest_p.params@) =~= params_view(params.params@).drop_first());
                    }
                    Ok(
                        Config {
                            c: Control::AstExpr(rc_clone(&args.args[0])),
                            e: rc_clone(&self.e),
                            s: Rc::new(new_store),
                            k: Rc::new(
                                Kont::CallK(
                                    typ.duplicate(),
                                    rc_clone(old_env),
                                    Rc::new(new_env),
                                    rc_clone(body),
                                    Rc::new(rest_p),
                                    Rc::new(rest_a),
                                    rc_clone(k),
                                ),
                            ),
                        },
                    )
                } else if na == 0 && np == 1 {
                    if let Value::ArrayV { .. } = v1 {
                        return Err(Halt::UntypedValue);
                    }
                    let pfirst = &params.params[0];
                    if !v1.get_type().same(&pfirst.typ) {
                        return Err(Halt::ArgumentTypeMismatch);
                    }
                    let mut new_store = self.s.duplicate();
                    new_store.insert(addr, v1);
                    let mut new_env = fun_env.duplicate();
                    new_env.insert(pfirst.name.clone(), addr);
                    Ok(
                        Config {
                            c: Control::AstStmt(rc_clone(body)),
                            e: Rc::new(new_env),
                            s: Rc::new(new_store),
                            k: Rc::new(Kont::FunK(typ.duplicate(), rc_clone(old_env), rc_clone(k))),
                        },
                    )
                } else {
                    Err(Halt::ArgumentCountMismatch)
                }
            },
            _ => Err(Halt::ArgumentCountMismatch),
        }
    }

    /// One transition, or why the machine stops here.
    pub fn try_next(&self, handler: &mut ProgramHandler) -> (r: Result<Config, Halt>)
        ensures
            agrees(r, step(self@, old(handler)@), final(handler)@.counter),
            handler_after(old(handler)@, final(handler)@),
    {
        match &self.c {
            Control::AstStmt(s) => self.step_stmt_exec(s, handler),
            Control::AstExpr(e) => self.step_expr_exec(e, handler),
        }
    }

    /// One transition.
    pub fn next(&self, handler: &mut ProgramHandler) -> (r: Self)
        requires
            step(self@, old(handler)@) is Ok,
        ensures
            step(self@, old(handler)@) == Ok::<(ConfigV, nat), Halt>((r@, final(handler)@.counter)),
            handler_after(old(handler)@, final(handler)@),
    {
        match self.try_next(handler) {
            Ok(c) => c,
            Err(_) => Config {
                c: Control::AstStmt(Rc::new(Stmt::Break)),
                e: rc_clone(&self.e),
                s: rc_clone(&self.s),
                k: rc_clone(&self.k),
            },
        }
    }
}

} // verus!
