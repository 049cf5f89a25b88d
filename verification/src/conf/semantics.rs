//! The transitions of the machine, stated over the contents of configurations.
use super::parts::address::Address;
use super::parts::control::ControlV;
use super::parts::kont::{EnvV, KontV};
use super::prog_handler::HandlerV;
use crate::visit::successor_visitor::{for_head, lookup_pair};
use crate::ast::ast::{find_fun, type_of, Type, Value};
use crate::ast::view::{ExprV, FunV, ParamV, StmtV};
use vstd::prelude::*;

verus! {

/// Why the machine stops instead of taking a step.
#[derive(Debug, Clone, Copy, PartialEq, Eq, Structural)]
pub enum Halt {
    /// The program finished: a value reached the empty continuation as its exit code.
    Exited(Value),
    /// A value that is no integer reached the empty continuation.
    InvalidExitType,
    /// A statement that ends, or a `return`, `break` or `continue`, under a continuation
    /// that cannot take it.
    UnexpectedKont,
    /// Calls through a function reference are not run.
    CallRefUnsupported,
    /// A name without a binding in the environment.
    UndefinedVariable,
    /// An address without a value in the store.
    AddressNotFound,
    /// A call of a function the program does not have.
    UnknownFunction,
    /// An assignment to something that evaluated to no address.
    NotAnAddress,
    /// An operator applied to operands it does not take, or whose result overflows.
    OperationFailed,
    /// A condition that evaluated to no boolean.
    NonBoolean,
    /// A function returned a value of another type than it declares.
    ReturnTypeMismatch,
    /// An argument of another type than its parameter.
    ArgumentTypeMismatch,
    /// A call with more or fewer arguments than parameters.
    ArgumentCountMismatch,
    /// A function body ended without returning.
    ExpectedReturn,
    /// An array value where a value with a type is needed.
    UntypedValue,
    /// No fresh address is left.
    AddressesExhausted,
}

/// The content of a configuration: control, environment, store and continuation.
pub struct ConfigV {
    pub c: ControlV,
    pub e: EnvV,
    pub s: Map<Address, Value>,
    pub k: KontV,
}

pub open spec fn fresh(n: nat) -> Address {
    Address { a: n as usize }
}

/// The store after the elements of an array literal from index `i` on are laid out at
/// fresh addresses, and the next fresh address; only literal values take an address.
pub open spec fn fill_array(elems: Seq<ExprV>, i: int, s: Map<Address, Value>, n: nat) -> Result<
    (Map<Address, Value>, nat),
    Halt,
>
    decreases elems.len() - i,
{
    if i < 0 || i >= elems.len() {
        Ok((s, n))
    } else {
        match elems[i] {
            ExprV::Val(v) => if n < usize::MAX {
                fill_array(elems, i + 1, s.insert(fresh(n), v), n + 1)
            } else {
                Err(Halt::AddressesExhausted)
            },
            _ => fill_array(elems, i + 1, s, n),
        }
    }
}

/// One transition from `c`, with the next fresh address; or why there is none.
pub open spec fn step(c: ConfigV, h: HandlerV) -> Result<(ConfigV, nat), Halt> {
    match c.c {
        ControlV::Stmt(s) => step_stmt(c, h, s),
        ControlV::Expr(e) => step_expr(c, h, e),
    }
}

/// The statement the successor map records as following `s`, if any.
pub open spec fn next_of(h: HandlerV, s: StmtV) -> Option<StmtV> {
    lookup_pair(h.successors, s)
}

/// What follows once the statement being run is finished, with environment `e` and store
/// `s`, where the successor map records no statement after it: at a block's end, the
/// block's scope closes and the run goes on at the block's successor, or the block itself
/// is finished; at the end of a loop's body, the loop's condition again; at the end of a
/// function's body, `return ()`; at the end of the program, `return 0`.
pub open spec fn finish(e: EnvV, s: Map<Address, Value>, k: KontV, n: nat) -> Result<
    (ConfigV, nat),
    Halt,
>
    decreases k,
{
    match k {
        KontV::BlockK(env, succ, k2) => match succ {
            Some(x) => Ok((ConfigV { c: ControlV::Stmt(x), e: env, s: s, k: *k2 }, n)),
            None => finish(env, s, *k2, n),
        },
        KontV::WhileK(env, cond, _, _, _) => Ok(
            (ConfigV { c: ControlV::Expr(cond), e: env, s: s, k: k }, n),
        ),
        KontV::FunK(typ, env, k2) => Ok(
            (
                ConfigV {
                    c: ControlV::Expr(ExprV::Val(Value::UnitV)),
                    e: e,
                    s: s,
                    k: KontV::ReturnK(typ, env, k2),
                },
                n,
            ),
        ),
        KontV::Mt => Ok(
            (ConfigV { c: ControlV::Expr(ExprV::Val(Value::IntV(0))), e: e, s: s, k: k }, n),
        ),
        _ => Err(Halt::UnexpectedKont),
    }
}

/// The statement `next` with the continuation `k` kept; where there is none, what
/// `finish` gives.
pub open spec fn goto(next: Option<StmtV>, e: EnvV, s: Map<Address, Value>, k: KontV, n: nat) -> Result<
    (ConfigV, nat),
    Halt,
> {
    match next {
        Some(x) => Ok((ConfigV { c: ControlV::Stmt(x), e: e, s: s, k: k }, n)),
        None => finish(e, s, k, n),
    }
}

/// A transition that starts a statement.
pub open spec fn step_stmt(c: ConfigV, h: HandlerV, s: StmtV) -> Result<(ConfigV, nat), Halt> {
    let next = next_of(h, s);
    let n = h.counter;
    match s {
        StmtV::ExprStmt(expr) => Ok(
            (
                ConfigV { c: ControlV::Expr(*expr), k: KontV::ExprStmtK(next, Box::new(c.k)), ..c },
                n,
            ),
        ),
        StmtV::If(cond, t, f) => Ok(
            (
                ConfigV {
                    c: ControlV::Expr(*cond),
                    k: KontV::IfK(
                        *t,
                        match f {
                            Some(x) => Some(*x),
                            None => None,
                        },
                        next,
                        Box::new(c.k),
                    ),
                    ..c
                },
                n,
            ),
        ),
        StmtV::Decl(_, name, init) => if n < usize::MAX {
            let e2 = c.e.insert(name, fresh(n));
            let s2 = c.s.insert(fresh(n), Value::UnitV);
            match init {
                Some(x) => Ok(
                    (
                        ConfigV {
                            c: ControlV::Expr(*x),
                            e: e2,
                            s: s2,
                            k: KontV::AssignK(ExprV::Var(name), next, Box::new(c.k)),
                        },
                        n + 1,
                    ),
                ),
                None => goto(next, e2, s2, c.k, n + 1),
            }
        } else {
            Err(Halt::AddressesExhausted)
        },
        StmtV::Assign(lhs, rhs) => Ok(
            (
                ConfigV {
                    c: ControlV::Expr(*rhs),
                    k: KontV::AssignK(*lhs, next, Box::new(c.k)),
                    ..c
                },
                n,
            ),
        ),
        StmtV::Return(expr) => match c.k {
            KontV::BlockK(_, _, k2) => Ok((ConfigV { c: ControlV::Stmt(s), k: *k2, ..c }, n)),
            KontV::ReturnK(_, _, _) => Ok((ConfigV { c: ControlV::Expr(*expr), ..c }, n)),
            KontV::FunK(typ, env, k2) => Ok(
                (ConfigV { c: ControlV::Expr(*expr), k: KontV::ReturnK(typ, env, k2), ..c }, n),
            ),
            KontV::Mt => Ok((ConfigV { c: ControlV::Expr(*expr), ..c }, n)),
            _ => Err(Halt::UnexpectedKont),
        },
        StmtV::Block(stmts) => if stmts.len() > 0 {
            Ok(
                (
                    ConfigV {
                        c: ControlV::Stmt(stmts[0]),
                        k: KontV::BlockK(c.e, next, Box::new(c.k)),
                        ..c
                    },
                    n,
                ),
            )
        } else {
            goto(next, c.e, c.s, c.k, n)
        },
        StmtV::Break => match c.k {
            KontV::WhileK(env, _, _, succ, k2) => goto(succ, env, c.s, *k2, n),
            KontV::BlockK(env, _, k2) => Ok(
                (ConfigV { c: ControlV::Stmt(s), e: env, k: *k2, ..c }, n),
            ),
            _ => Err(Halt::UnexpectedKont),
        },
        StmtV::While(cond, body) => Ok(
            (
                ConfigV {
                    c: ControlV::Expr(*cond),
                    k: KontV::WhileK(c.e, *cond, *body, next, Box::new(c.k)),
                    ..c
                },
                n,
            ),
        ),
        StmtV::Continue => match c.k {
            KontV::WhileK(env, cond, _, _, _) => Ok(
                (ConfigV { c: ControlV::Expr(cond), e: env, ..c }, n),
            ),
            KontV::BlockK(env, _, k2) => Ok(
                (ConfigV { c: ControlV::Stmt(s), e: env, k: *k2, ..c }, n),
            ),
            _ => Err(Halt::UnexpectedKont),
        },
        StmtV::ForD(init, cond, upd, body) => Ok(
            (
                ConfigV {
                    c: ControlV::Stmt(for_head(init, *cond, upd, *body)[0]),
                    k: KontV::BlockK(c.e, next, Box::new(c.k)),
                    ..c
                },
                n,
            ),
        ),
    }
}

/// A transition that works on an expression.
pub open spec fn step_expr(c: ConfigV, h: HandlerV, e: ExprV) -> Result<(ConfigV, nat), Halt> {
    let n = h.counter;
    match e {
        ExprV::BinaryOp(l, op, r) => Ok(
            (ConfigV { c: ControlV::Expr(*l), k: KontV::OpLK(op, *r, Box::new(c.k)), ..c }, n),
        ),
        ExprV::UnaryOp(op, x) => Ok(
            (ConfigV { c: ControlV::Expr(*x), k: KontV::UOpK(op, Box::new(c.k)), ..c }, n),
        ),
        ExprV::Array(elems) => if n < usize::MAX {
            let s1 = if elems.len() > 0 && elems[0] is Val {
                c.s.insert(fresh(n), elems[0]->Val_0)
            } else {
                c.s
            };
            match fill_array(elems, 1, s1, n + 1) {
                Ok((s2, n2)) => Ok(
                    (
                        ConfigV {
                            c: ControlV::Expr(
                                ExprV::Val(
                                    Value::ArrayV {
                                        size: elems.len() as usize,
                                        start_of_array: fresh(n),
                                    },
                                ),
                            ),
                            s: s2,
                            ..c
                        },
                        n2,
                    ),
                ),
                Err(x) => Err(x),
            }
        } else {
            Err(Halt::AddressesExhausted)
        },
        ExprV::Var(name) => if c.e.dom().contains(name) {
            Ok((ConfigV { c: ControlV::Expr(ExprV::Val(Value::AddrV(c.e[name]))), ..c }, n))
        } else {
            Err(Halt::UndefinedVariable)
        },
        ExprV::Index(id, idx) => Ok(
            (ConfigV { c: ControlV::Expr(*idx), k: KontV::IndexK(id, Box::new(c.k)), ..c }, n),
        ),
        ExprV::CallRef(_, _) => Err(Halt::CallRefUnsupported),
        ExprV::Val(v) => match v {
            Value::AddrV(a) => if c.k is LvalK {
                invoke(c, h, v)
            } else if c.s.dom().contains(a) {
                Ok((ConfigV { c: ControlV::Expr(ExprV::Val(c.s[a])), ..c }, n))
            } else {
                Err(Halt::AddressNotFound)
            },
            _ => invoke(c, h, v),
        },
        ExprV::CallName(callee, args) => match find_fun(h.funs, callee) {
            None => Err(Halt::UnknownFunction),
            Some(f) => if args.len() > 0 {
                Ok(
                    (
                        ConfigV {
                            c: ControlV::Expr(args[0]),
                            k: KontV::CallK(
                                f.typ,
                                c.e,
                                Map::empty(),
                                f.body,
                                f.params,
                                args.drop_first(),
                                Box::new(c.k),
                            ),
                            ..c
                        },
                        n,
                    ),
                )
            } else {
                Ok(
                    (
                        ConfigV {
                            c: ControlV::Stmt(f.body),
                            e: Map::empty(),
                            k: KontV::FunK(f.typ, c.e, Box::new(c.k)),
                            ..c
                        },
                        n,
                    ),
                )
            },
        },
    }
}

/// A transition that hands the value `v` to the continuation of `c`.
pub open spec fn invoke(c: ConfigV, h: HandlerV, v: Value) -> Result<(ConfigV, nat), Halt> {
    let n = h.counter;
    match c.k {
        KontV::LvalK(val, succ, k2) => match v {
            Value::AddrV(a) => goto(succ, c.e, c.s.insert(a, val), *k2, n),
            _ => Err(Halt::NotAnAddress),
        },
        KontV::OpLK(op, expr, k2) => Ok(
            (ConfigV { c: ControlV::Expr(expr), k: KontV::OpRK(op, v, k2), ..c }, n),
        ),
        KontV::OpRK(op, v2, k2) => match op.call_spec(v2, v) {
            Some(r) => Ok((ConfigV { c: ControlV::Expr(ExprV::Val(r)), k: *k2, ..c }, n)),
            None => Err(Halt::OperationFailed),
        },
        KontV::UOpK(op, k2) => match op.call_spec(v) {
            Some(r) => Ok((ConfigV { c: ControlV::Expr(ExprV::Val(r)), k: *k2, ..c }, n)),
            None => Err(Halt::OperationFailed),
        },
        KontV::IfK(t, f, succ, k2) => match v {
            Value::BoolV(true) => Ok(
                (ConfigV { c: ControlV::Stmt(t), k: KontV::BlockK(c.e, succ, k2), ..c }, n),
            ),
            Value::BoolV(false) => match f {
                Some(x) => Ok(
                    (ConfigV { c: ControlV::Stmt(x), k: KontV::BlockK(c.e, succ, k2), ..c }, n),
                ),
                None => goto(succ, c.e, c.s, *k2, n),
            },
            _ => Err(Halt::NonBoolean),
        },
        KontV::ReturnK(typ, env, k2) => if v is ArrayV {
            Err(Halt::UntypedValue)
        } else if type_of(v) == typ {
            Ok((ConfigV { c: ControlV::Expr(ExprV::Val(v)), e: env, k: *k2, ..c }, n))
        } else {
            Err(Halt::ReturnTypeMismatch)
        },
        KontV::AssignK(lval, succ, k2) => Ok(
            (ConfigV { c: ControlV::Expr(lval), k: KontV::LvalK(v, succ, k2), ..c }, n),
        ),
        KontV::BlockK(env, succ, k2) => goto(succ, env, c.s, *k2, n),
        KontV::CallK(typ, old_env, fun_env, body, params, args, k2) => if n < usize::MAX {
            let a = fresh(n);
            if args.len() > 0 && params.len() > 0 {
                if v is ArrayV {
                    Err(Halt::UntypedValue)
                } else if type_of(v) == params[0].typ {
                    Ok(
                        (
                            ConfigV {
                                c: ControlV::Expr(args[0]),
                                s: c.s.insert(a, v),
                                k: KontV::CallK(
                                    typ,
                                    old_env,
                                    fun_env.insert(params[0].name, a),
                                    body,
                                    params.drop_first(),
                                    args.drop_first(),
                                    k2,
                                ),
                                ..c
                            },
                            n + 1,
                        ),
                    )
                } else {
                    Err(Halt::ArgumentTypeMismatch)
                }
            } else if args.len() == 0 && params.len() == 1 {
                if v is ArrayV {
                    Err(Halt::UntypedValue)
                } else if type_of(v) == params[0].typ {
                    Ok(
                        (
                            ConfigV {
                                c: ControlV::Stmt(body),
                                e: fun_env.insert(params[0].name, a),
                                s: c.s.insert(a, v),
                                k: KontV::FunK(typ, old_env, k2),
                            },
                            n + 1,
                        ),
                    )
                } else {
                    Err(Halt::ArgumentTypeMismatch)
                }
            } else {
                Err(Halt::ArgumentCountMismatch)
            }
        } else {
            Err(Halt::AddressesExhausted)
        },
        KontV::ExprStmtK(succ, k2) => goto(succ, c.e, c.s, *k2, n),
        KontV::WhileK(env, cond, body, succ, k2) => match v {
            Value::BoolV(true) => Ok((ConfigV { c: ControlV::Stmt(body), ..c }, n)),
            Value::BoolV(false) => goto(succ, env, c.s, *k2, n),
            _ => Err(Halt::NonBoolean),
        },
        KontV::IndexK(id, k2) => if c.e.dom().contains(id) {
            Ok(
                (
                    ConfigV { c: ControlV::Expr(ExprV::Val(Value::AddrV(c.e[id]))), k: *k2, ..c },
                    n,
                ),
            )
        } else {
            Err(Halt::UndefinedVariable)
        },
        KontV::FunK(_, _, _) => Err(Halt::ExpectedReturn),
        KontV::Mt => if v is ArrayV {
            Err(Halt::UntypedValue)
        } else if type_of(v) == Type::IntT {
            Err(Halt::Exited(v))
        } else {
            Err(Halt::InvalidExitType)
        },
    }
}

proof fn lemma_fill_array(elems: Seq<ExprV>, i: int, s: Map<Address, Value>, n: nat)
    requires
        fill_array(elems, i, s, n) is Ok,
        n <= usize::MAX,
    ensures
        n <= fill_array(elems, i, s, n)->Ok_0.1 <= usize::MAX,
        forall|a: Address| s.dom().contains(a) ==> fill_array(elems, i, s, n)->Ok_0.0.dom().contains(
            a,
        ),
        forall|a: Address|
            fill_array(elems, i, s, n)->Ok_0.0.dom().contains(a) && !s.dom().contains(a) ==> n
                <= a.a < fill_array(elems, i, s, n)->Ok_0.1,
    decreases elems.len() - i,
{
    if 0 <= i < elems.len() {
        match elems[i] {
            ExprV::Val(v) => {
                assert(n < usize::MAX);
                assert(fresh(n).a == n);
                let s1 = s.insert(fresh(n), v);
                lemma_fill_array(elems, i + 1, s1, n + 1);
                let r = fill_array(elems, i, s, n)->Ok_0;
                assert(r == fill_array(elems, i + 1, s1, n + 1)->Ok_0);
                assert forall|a: Address| s.dom().contains(a) implies r.0.dom().contains(a) by {
                    assert(s1.dom().contains(a));
                }
                assert forall|a: Address| r.0.dom().contains(a) && !s.dom().contains(a) implies n
                    <= a.a < r.1 by {
                    if a != fresh(n) {
                        assert(!s1.dom().contains(a));
                    }
                }
            },
            _ => {
                lemma_fill_array(elems, i + 1, s, n);
            },
        }
    }
}

/// Every address of `s1` is an address of `s2`.
pub open spec fn keeps_addresses(s1: Map<Address, Value>, s2: Map<Address, Value>) -> bool {
    forall|a: Address| s1.dom().contains(a) ==> #[trigger] s2.dom().contains(a)
}

/// Every address of `s2` that `s1` lacks lies in `lo .. hi`.
pub open spec fn new_addresses_within(
    s1: Map<Address, Value>,
    s2: Map<Address, Value>,
    lo: nat,
    hi: nat,
) -> bool {
    forall|a: Address| #[trigger] s2.dom().contains(a) && !s1.dom().contains(a) ==> lo <= a.a < hi
}

/// Finishing a statement changes neither the store nor the next fresh address.
pub proof fn lemma_finish(e: EnvV, s: Map<Address, Value>, k: KontV, n: nat)
    ensures
        finish(e, s, k, n) is Ok ==> finish(e, s, k, n)->Ok_0.0.s == s && finish(
            e,
            s,
            k,
            n,
        )->Ok_0.1 == n,
    decreases k,
{
    if let KontV::BlockK(env, succ, k2) = k {
        if succ is None {
            lemma_finish(env, s, *k2, n);
        }
    }
}

/// Going on to the next statement changes neither the store nor the next fresh address.
pub proof fn lemma_goto(next: Option<StmtV>, e: EnvV, s: Map<Address, Value>, k: KontV, n: nat)
    ensures
        goto(next, e, s, k, n) is Ok ==> goto(next, e, s, k, n)->Ok_0.0.s == s && goto(
            next,
            e,
            s,
            k,
            n,
        )->Ok_0.1 == n,
{
    lemma_finish(e, s, k, n);
}

/// A step never hands out an address twice: the next fresh address only grows, the store
/// keeps every address it had, and an address a step adds to the store is one it handed
/// out fresh, or the target of an assignment.
pub proof fn law_step_addresses(c: ConfigV, h: HandlerV)
    requires
        step(c, h) is Ok,
        h.counter <= usize::MAX,
    ensures
        h.counter <= step(c, h)->Ok_0.1 <= usize::MAX,
        keeps_addresses(c.s, step(c, h)->Ok_0.0.s),
        !(c.k is LvalK) ==> new_addresses_within(
            c.s,
            step(c, h)->Ok_0.0.s,
            h.counter,
            step(c, h)->Ok_0.1,
        ),
{
    let n = h.counter;
    let r = step(c, h)->Ok_0;
    assert(fresh(n).a == n);
    match c.c {
        ControlV::Stmt(st) => {
            let next = next_of(h, st);
            assert(step(c, h) == step_stmt(c, h, st));
            match st {
                StmtV::Decl(_, name, _) => {
                    let s2 = c.s.insert(fresh(n), Value::UnitV);
                    lemma_goto(next, c.e.insert(name, fresh(n)), s2, c.k, n + 1);
                    assert(r.0.s == s2 && r.1 == n + 1);
                    assert forall|a: Address| c.s.dom().contains(a) implies r.0.s.dom().contains(
                        a,
                    ) by {
                        assert(s2.dom().contains(a));
                    }
                },
                StmtV::Block(_) => {
                    lemma_goto(next, c.e, c.s, c.k, n);
                },
                StmtV::Break => {
                    if let KontV::WhileK(env, _, _, succ, k2) = c.k {
                        lemma_goto(succ, env, c.s, *k2, n);
                    }
                },
                _ => {},
            }
            assert(r.0.s == c.s || st is Decl);
        },
        ControlV::Expr(e) => {
            assert(step(c, h) == step_expr(c, h, e));
            if let ExprV::Array(elems) = e {
                let s1 = if elems.len() > 0 && elems[0] is Val {
                    c.s.insert(fresh(n), elems[0]->Val_0)
                } else {
                    c.s
                };
                lemma_fill_array(elems, 1, s1, n + 1);
                let r = fill_array(elems, 1, s1, n + 1)->Ok_0;
                assert forall|a: Address| r.0.dom().contains(a) && !c.s.dom().contains(a) implies n
                    <= a.a < r.1 by {
                    if a != fresh(n) && !s1.dom().contains(a) {
                    }
                }
                assert forall|a: Address| c.s.dom().contains(a) implies r.0.dom().contains(a) by {
                    assert(s1.dom().contains(a));
                }
            } else if let ExprV::Val(v) = e {
                if v is AddrV && !(c.k is LvalK) {
                    assert(r.0.s == c.s);
                } else {
                    match c.k {
                        KontV::LvalK(val, succ, k2) => {
                            let a = v->AddrV_0;
                            lemma_goto(succ, c.e, c.s.insert(a, val), *k2, n);
                            assert(r.0.s == c.s.insert(a, val));
                            assert forall|x: Address| c.s.dom().contains(x) implies r.0.s.dom().contains(
                                x,
                            ) by {
                                assert(c.s.insert(a, val).dom().contains(x));
                            }
                        },
                        KontV::CallK(_, _, _, _, _, _, _) => {
                            assert(r.0.s == c.s.insert(fresh(n), v));
                            assert forall|x: Address| c.s.dom().contains(x) implies r.0.s.dom().contains(
                                x,
                            ) by {
                                assert(c.s.insert(fresh(n), v).dom().contains(x));
                            }
                        },
                        KontV::IfK(_, _, succ, k2) => {
                            lemma_goto(succ, c.e, c.s, *k2, n);
                        },
                        KontV::ExprStmtK(succ, k2) => {
                            lemma_goto(succ, c.e, c.s, *k2, n);
                        },
                        KontV::BlockK(env, succ, k2) => {
                            lemma_goto(succ, env, c.s, *k2, n);
                        },
                        KontV::WhileK(env, _, _, succ, k2) => {
                            lemma_goto(succ, env, c.s, *k2, n);
                        },
                        _ => {},
                    }
                }
            }
        },
    }
}

/// An assignment stores the assigned value at the address of its target and goes on at the
/// assignment's successor with the continuation kept (or, where it has none, as a finished
/// statement does); a later read of that address gives the value back.
pub proof fn law_assign_then_read(
    c: ConfigV,
    h: HandlerV,
    a: Address,
    val: Value,
    succ: Option<StmtV>,
    k2: KontV,
    later: ConfigV,
    h2: HandlerV,
)
    requires
        c.c == ControlV::Expr(ExprV::Val(Value::AddrV(a))),
        c.k == KontV::LvalK(val, succ, Box::new(k2)),
        later.c == ControlV::Expr(ExprV::Val(Value::AddrV(a))),
        later.s == c.s.insert(a, val),
        !(later.k is LvalK),
    ensures
        step(c, h) == goto(succ, c.e, c.s.insert(a, val), k2, h.counter),
        succ matches Some(x) ==> step(c, h) == Ok::<(ConfigV, nat), Halt>(
            (ConfigV { c: ControlV::Stmt(x), s: c.s.insert(a, val), k: k2, ..c }, h.counter),
        ),
        step(c, h) is Ok ==> step(c, h)->Ok_0.0.s == c.s.insert(a, val),
        step(later, h2) == Ok::<(ConfigV, nat), Halt>(
            (ConfigV { c: ControlV::Expr(ExprV::Val(val)), ..later }, h2.counter),
        ),
{
    lemma_goto(succ, c.e, c.s.insert(a, val), k2, h.counter);
}

/// A declaration without initializer, and an empty block, go on at the statement the
/// successor map records after them, with the continuation kept.
pub proof fn law_statement_goes_to_its_successor(
    c: ConfigV,
    h: HandlerV,
    typ: Type,
    name: Seq<char>,
    x: StmtV,
)
    requires
        h.counter < usize::MAX,
    ensures
        next_of(h, StmtV::Decl(typ, name, None)) == Some(x) ==> step(
            ConfigV { c: ControlV::Stmt(StmtV::Decl(typ, name, None)), ..c },
            h,
        ) == Ok::<(ConfigV, nat), Halt>(
            (
                ConfigV {
                    c: ControlV::Stmt(x),
                    e: c.e.insert(name, fresh(h.counter)),
                    s: c.s.insert(fresh(h.counter), Value::UnitV),
                    k: c.k,
                },
                h.counter + 1,
            ),
        ),
        next_of(h, StmtV::Block(Seq::empty())) == Some(x) ==> step(
            ConfigV { c: ControlV::Stmt(StmtV::Block(Seq::empty())), ..c },
            h,
        ) == Ok::<(ConfigV, nat), Halt>((ConfigV { c: ControlV::Stmt(x), ..c }, h.counter)),
{
}

/// A declaration with an initializer is a declaration followed by an assignment: the name
/// is bound to a fresh address holding the unit value, and the initializer is evaluated
/// to be assigned to the name, after which the run goes on at the declaration's successor.
pub proof fn law_declaration_with_initializer(
    c: ConfigV,
    h: HandlerV,
    typ: Type,
    name: Seq<char>,
    init: ExprV,
)
    requires
        c.c == ControlV::Stmt(StmtV::Decl(typ, name, Some(Box::new(init)))),
        h.counter < usize::MAX,
    ensures
        step(c, h) == Ok::<(ConfigV, nat), Halt>(
            (
                ConfigV {
                    c: ControlV::Expr(init),
                    e: c.e.insert(name, fresh(h.counter)),
                    s: c.s.insert(fresh(h.counter), Value::UnitV),
                    k: KontV::AssignK(
                        ExprV::Var(name),
                        next_of(h, StmtV::Decl(typ, name, Some(Box::new(init)))),
                        Box::new(c.k),
                    ),
                },
                h.counter + 1,
            ),
        ),
{
}

/// Once an initializer (or the right side of an assignment to a name) has the value `v`,
/// three steps store `v` at the name's address and go on at the statement's successor.
pub proof fn law_initializer_is_assigned(
    c: ConfigV,
    h: HandlerV,
    name: Seq<char>,
    v: Value,
    succ: Option<StmtV>,
    k: KontV,
)
    requires
        c.c == ControlV::Expr(ExprV::Val(v)),
        !(v is AddrV),
        c.k == KontV::AssignK(ExprV::Var(name), succ, Box::new(k)),
        c.e.dom().contains(name),
    ensures
        step(c, h) is Ok,
        step(step(c, h)->Ok_0.0, h) is Ok,
        step(step(step(c, h)->Ok_0.0, h)->Ok_0.0, h) == goto(
            succ,
            c.e,
            c.s.insert(c.e[name], v),
            k,
            h.counter,
        ),
{
    let c1 = ConfigV {
        c: ControlV::Expr(ExprV::Var(name)),
        k: KontV::LvalK(v, succ, Box::new(k)),
        ..c
    };
    assert(step(c, h) == Ok::<(ConfigV, nat), Halt>((c1, h.counter)));
    let c2 = ConfigV { c: ControlV::Expr(ExprV::Val(Value::AddrV(c.e[name]))), ..c1 };
    assert(step(c1, h) == Ok::<(ConfigV, nat), Halt>((c2, h.counter)));
}

/// A `for` loop runs as `init; while (cond) { body; update }`: the statements `for_head`
/// gives are run in its place, as a block whose successor is the loop's successor.
pub proof fn law_for_is_while(
    c: ConfigV,
    h: HandlerV,
    init: Option<Box<ExprV>>,
    cond: ExprV,
    update: Option<Box<ExprV>>,
    body: StmtV,
)
    requires
        c.c == ControlV::Stmt(StmtV::ForD(init, Box::new(cond), update, Box::new(body))),
    ensures
        step(c, h) == Ok::<(ConfigV, nat), Halt>(
            (
                ConfigV {
                    c: ControlV::Stmt(for_head(init, cond, update, body)[0]),
                    k: KontV::BlockK(
                        c.e,
                        next_of(h, StmtV::ForD(init, Box::new(cond), update, Box::new(body))),
                        Box::new(c.k),
                    ),
                    ..c
                },
                h.counter,
            ),
        ),
        for_head(init, cond, update, body).last() == StmtV::While(
            Box::new(cond),
            Box::new(
                match update {
                    Some(u) => StmtV::Block(seq![body, StmtV::ExprStmt(u)]),
                    None => body,
                },
            ),
        ),
{
}

/// When a loop's body is finished, directly or as a block with no successor, the loop's
/// condition is evaluated again, in the loop's environment and under the same loop
/// continuation, as if the body ended with `continue`.
pub proof fn law_loop_body_end_goes_back_to_condition(
    e: EnvV,
    s: Map<Address, Value>,
    env: EnvV,
    cond: ExprV,
    body: StmtV,
    succ: Option<StmtV>,
    k2: KontV,
    block_env: EnvV,
    n: nat,
)
    ensures
        finish(e, s, KontV::WhileK(env, cond, body, succ, Box::new(k2)), n) == Ok::<
            (ConfigV, nat),
            Halt,
        >(
            (
                ConfigV {
                    c: ControlV::Expr(cond),
                    e: env,
                    s: s,
                    k: KontV::WhileK(env, cond, body, succ, Box::new(k2)),
                },
                n,
            ),
        ),
        finish(
            e,
            s,
            KontV::BlockK(
                block_env,
                None,
                Box::new(KontV::WhileK(env, cond, body, succ, Box::new(k2))),
            ),
            n,
        ) == finish(e, s, KontV::WhileK(env, cond, body, succ, Box::new(k2)), n),
{
    let w = KontV::WhileK(env, cond, body, succ, Box::new(k2));
    assert(finish(e, s, KontV::BlockK(block_env, None, Box::new(w)), n) == finish(
        block_env,
        s,
        w,
        n,
    ));
}

/// Blocks end: a block whose last statement has no successor closes its scope and goes on
/// at the block's own successor, or is itself finished where it has none. A function body
/// that ends without `return` returns `()`, and a program that ends without `return`
/// returns 0.
pub proof fn law_blocks_end(
    e: EnvV,
    s: Map<Address, Value>,
    env: EnvV,
    x: StmtV,
    k2: KontV,
    typ: Type,
    n: nat,
)
    ensures
        finish(e, s, KontV::BlockK(env, Some(x), Box::new(k2)), n) == Ok::<(ConfigV, nat), Halt>(
            (ConfigV { c: ControlV::Stmt(x), e: env, s: s, k: k2 }, n),
        ),
        finish(e, s, KontV::BlockK(env, None, Box::new(k2)), n) == finish(env, s, k2, n),
        finish(e, s, KontV::FunK(typ, env, Box::new(k2)), n) == Ok::<(ConfigV, nat), Halt>(
            (
                ConfigV {
                    c: ControlV::Expr(ExprV::Val(Value::UnitV)),
                    e: e,
                    s: s,
                    k: KontV::ReturnK(typ, env, Box::new(k2)),
                },
                n,
            ),
        ),
        finish(e, s, KontV::Mt, n) == Ok::<(ConfigV, nat), Halt>(
            (
                ConfigV {
                    c: ControlV::Expr(ExprV::Val(Value::IntV(0))),
                    e: e,
                    s: s,
                    k: KontV::Mt,
                },
                n,
            ),
        ),
{
}

/// The machine run for `m` transitions from `c`, the next fresh address carried from one
/// transition to the next; or why it stopped before.
pub open spec fn steps(c: ConfigV, h: HandlerV, m: nat) -> Result<(ConfigV, nat), Halt>
    decreases m,
{
    if m == 0 {
        Ok((c, h.counter))
    } else {
        match step(c, h) {
            Ok((c2, n2)) => steps(c2, HandlerV { counter: n2, ..h }, (m - 1) as nat),
            Err(x) => Err(x),
        }
    }
}

/// Argument expressions that are the literal values `vals`.
pub open spec fn literals(vals: Seq<Value>) -> Seq<ExprV> {
    vals.map_values(|v: Value| ExprV::Val(v))
}

/// One value for each parameter, each of its parameter's type and neither an address nor
/// an array.
pub open spec fn fitting_values(params: Seq<ParamV>, vals: Seq<Value>) -> bool {
    &&& params.len() == vals.len()
    &&& forall|i: int|
        #![trigger vals[i]]
        0 <= i < vals.len() ==> !(vals[i] is AddrV) && !(vals[i] is ArrayV) && type_of(vals[i])
            == params[i].typ
}

/// The environment `e` with the names of `ps` bound in turn to the fresh addresses from
/// `n` on.
spec fn bind_names(e: EnvV, ps: Seq<ParamV>, n: nat) -> EnvV
    decreases ps.len(),
{
    if ps.len() == 0 {
        e
    } else {
        bind_names(e.insert(ps[0].name, fresh(n)), ps.drop_first(), n + 1)
    }
}

/// The store `s` with the values `vs` put in turn at the fresh addresses from `n` on.
spec fn store_values(s: Map<Address, Value>, vs: Seq<Value>, n: nat) -> Map<Address, Value>
    decreases vs.len(),
{
    if vs.len() == 0 {
        s
    } else {
        store_values(s.insert(fresh(n), vs[0]), vs.drop_first(), n + 1)
    }
}

proof fn lemma_bind_names(e: EnvV, ps: Seq<ParamV>, n: nat)
    ensures
        forall|x: Seq<char>|
            bind_names(e, ps, n).dom().contains(x) <==> (e.dom().contains(x) || exists|i: int|
                0 <= i < ps.len() && ps[i].name == x),
        forall|i: int|
            0 <= i < ps.len() && (forall|j: int| i < j < ps.len() ==> ps[j].name != ps[i].name)
                ==> #[trigger] bind_names(e, ps, n)[ps[i].name] == fresh((n + i) as nat),
    decreases ps.len(),
{
    if ps.len() > 0 {
        let e1 = e.insert(ps[0].name, fresh(n));
        let rest = ps.drop_first();
        assert(bind_names(e, ps, n) == bind_names(e1, rest, n + 1));
        lemma_bind_names(e1, rest, n + 1);
        assert forall|x: Seq<char>|
            bind_names(e, ps, n).dom().contains(x) <==> (e.dom().contains(x) || exists|i: int|
                0 <= i < ps.len() && ps[i].name == x) by {
            assert(e1.dom().contains(x) <==> (e.dom().contains(x) || x == ps[0].name));
            let in_rest = exists|i: int| 0 <= i < rest.len() && rest[i].name == x;
            let in_ps = exists|i: int| 0 <= i < ps.len() && ps[i].name == x;
            if in_rest {
                let i = choose|i: int| 0 <= i < rest.len() && rest[i].name == x;
                assert(ps[i + 1].name == x);
                assert(in_ps);
            }
            if x == ps[0].name {
                assert(in_ps);
            }
            if in_ps {
                let i = choose|i: int| 0 <= i < ps.len() && ps[i].name == x;
                if i > 0 {
                    assert(rest[i - 1].name == x);
                    assert(in_rest);
                }
            }
        }
        assert forall|i: int|
            0 <= i < ps.len() && (forall|j: int| i < j < ps.len() ==> ps[j].name != ps[i].name)
                implies #[trigger] bind_names(e, ps, n)[ps[i].name] == fresh((n + i) as nat) by {
            if i > 0 {
                assert(rest[i - 1] == ps[i]);
                assert forall|j: int| i - 1 < j < rest.len() implies #[trigger] rest[j].name
                    != rest[i - 1].name by {
                    assert(rest[j] == ps[j + 1]);
                }
            } else {
                assert forall|j: int| 0 <= j < rest.len() implies #[trigger] rest[j].name
                    != ps[0].name by {
                    assert(rest[j] == ps[j + 1]);
                }
                assert(!exists|j: int| 0 <= j < rest.len() && rest[j].name == ps[0].name);
                lemma_bind_names_keeps(e1, rest, n + 1, ps[0].name);
            }
        }
    }
}

proof fn lemma_bind_names_keeps(e: EnvV, ps: Seq<ParamV>, n: nat, x: Seq<char>)
    requires
        !exists|j: int| 0 <= j < ps.len() && ps[j].name == x,
    ensures
        bind_names(e, ps, n)[x] == e[x],
    decreases ps.len(),
{
    if ps.len() > 0 {
        let rest = ps.drop_first();
        assert(ps[0].name != x);
        assert(!exists|j: int| 0 <= j < rest.len() && rest[j].name == x) by {
            if exists|j: int| 0 <= j < rest.len() && rest[j].name == x {
                let j = choose|j: int| 0 <= j < rest.len() && rest[j].name == x;
                assert(ps[j + 1].name == x);
            }
        }
        lemma_bind_names_keeps(e.insert(ps[0].name, fresh(n)), rest, n + 1, x);
    }
}

proof fn lemma_store_values(s: Map<Address, Value>, vs: Seq<Value>, n: nat, i: int)
    requires
        n + vs.len() <= usize::MAX,
        0 <= i < vs.len(),
    ensures
        store_values(s, vs, n).dom().contains(fresh((n + i) as nat)),
        store_values(s, vs, n)[fresh((n + i) as nat)] == vs[i],
    decreases vs.len(),
{
    let s1 = s.insert(fresh(n), vs[0]);
    let rest = vs.drop_first();
    assert(store_values(s, vs, n) == store_values(s1, rest, n + 1));
    if i > 0 {
        lemma_store_values(s1, rest, n + 1, i - 1);
        assert(fresh(((n + 1) + (i - 1)) as nat) == fresh((n + i) as nat));
        assert(rest[i - 1] == vs[i]);
    } else {
        assert(fresh(n).a == n);
        lemma_store_values_keeps(s1, rest, n + 1, fresh(n));
    }
}

proof fn lemma_store_values_keeps(s: Map<Address, Value>, vs: Seq<Value>, n: nat, a: Address)
    requires
        n + vs.len() <= usize::MAX,
        !(n <= a.a < n + vs.len()),
    ensures
        store_values(s, vs, n).dom().contains(a) == s.dom().contains(a),
        s.dom().contains(a) ==> store_values(s, vs, n)[a] == s[a],
    decreases vs.len(),
{
    if vs.len() > 0 {
        let s1 = s.insert(fresh(n), vs[0]);
        let rest = vs.drop_first();
        assert(store_values(s, vs, n) == store_values(s1, rest, n + 1));
        assert(fresh(n).a == n);
        assert(a != fresh(n));
        lemma_store_values_keeps(s1, rest, n + 1, a);
    }
}

/// The arguments from the one whose value `c` holds on: each transition binds the next
/// parameter to a fresh address holding the next value, and after the last the body runs.
proof fn lemma_bind_rest(
    c: ConfigV,
    h: HandlerV,
    typ: Type,
    old_env: EnvV,
    fe: EnvV,
    body: StmtV,
    ps: Seq<ParamV>,
    vs: Seq<Value>,
    k2: KontV,
)
    requires
        vs.len() >= 1,
        fitting_values(ps, vs),
        c.c == ControlV::Expr(ExprV::Val(vs[0])),
        c.k == KontV::CallK(typ, old_env, fe, body, ps, literals(vs).drop_first(), Box::new(k2)),
        h.counter + vs.len() <= usize::MAX,
    ensures
        steps(c, h, vs.len()) == Ok::<(ConfigV, nat), Halt>(
            (
                ConfigV {
                    c: ControlV::Stmt(body),
                    e: bind_names(fe, ps, h.counter),
                    s: store_values(c.s, vs, h.counter),
                    k: KontV::FunK(typ, old_env, Box::new(k2)),
                },
                h.counter + vs.len(),
            ),
        ),
    decreases vs.len(),
{
    let n = h.counter;
    let v = vs[0];
    assert(!(v is AddrV) && !(v is ArrayV) && type_of(v) == ps[0].typ);
    let args = literals(vs).drop_first();
    if vs.len() == 1 {
        let c2 = ConfigV {
            c: ControlV::Stmt(body),
            e: fe.insert(ps[0].name, fresh(n)),
            s: c.s.insert(fresh(n), v),
            k: KontV::FunK(typ, old_env, Box::new(k2)),
        };
        assert(step(c, h) == Ok::<(ConfigV, nat), Halt>((c2, n + 1)));
        let h2 = HandlerV { counter: n + 1, ..h };
        assert(steps(c2, h2, 0) == Ok::<(ConfigV, nat), Halt>((c2, n + 1)));
        assert(bind_names(fe.insert(ps[0].name, fresh(n)), ps.drop_first(), n + 1) == fe.insert(
            ps[0].name,
            fresh(n),
        ));
        assert(store_values(c.s.insert(fresh(n), v), vs.drop_first(), n + 1) == c.s.insert(
            fresh(n),
            v,
        ));
    } else {
        let rv = vs.drop_first();
        let rp = ps.drop_first();
        assert(args[0] == ExprV::Val(vs[1]));
        assert(literals(rv).drop_first() =~= args.drop_first());
        let c2 = ConfigV {
            c: ControlV::Expr(args[0]),
            s: c.s.insert(fresh(n), v),
            k: KontV::CallK(
                typ,
                old_env,
                fe.insert(ps[0].name, fresh(n)),
                body,
                rp,
                args.drop_first(),
                Box::new(k2),
            ),
            ..c
        };
        assert(step(c, h) == Ok::<(ConfigV, nat), Halt>((c2, n + 1)));
        let h2 = HandlerV { counter: n + 1, ..h };
        assert(fitting_values(rp, rv)) by {
            assert forall|i: int| 0 <= i < rv.len() implies !(rv[i] is AddrV) && !(
            rv[i] is ArrayV) && type_of(rv[i]) == rp[i].typ by {
                assert(rv[i] == vs[i + 1]);
                assert(rp[i] == ps[i + 1]);
            }
        }
        lemma_bind_rest(c2, h2, typ, old_env, fe.insert(ps[0].name, fresh(n)), body, rp, rv, k2);
    }
}

/// A call binds its arguments to the parameters by position. Where `callee(v0, ..., vm)`
/// is called with literal values that fit the parameters, one transition per argument
/// after the call's own brings the run into the body, under a continuation that returns
/// to the caller's environment and continuation. The body's environment binds exactly the
/// parameters' names; the i-th parameter (where no later one has its name) is bound to
/// the fresh address `counter + i`, which holds the i-th value; the rest of the store is
/// left as it was.
pub proof fn law_call_binds_arguments_by_position(
    c: ConfigV,
    h: HandlerV,
    callee: Seq<char>,
    f: FunV,
    vals: Seq<Value>,
)
    requires
        c.c == ControlV::Expr(ExprV::CallName(callee, literals(vals))),
        find_fun(h.funs, callee) == Some(f),
        fitting_values(f.params, vals),
        h.counter + vals.len() <= usize::MAX,
    ensures
        steps(c, h, vals.len() + 1) matches Ok((c2, n2)) && c2.c == ControlV::Stmt(f.body) && c2.k
            == KontV::FunK(f.typ, c.e, Box::new(c.k)) && n2 == h.counter + vals.len() && (forall|
            x: Seq<char>,
        |
            c2.e.dom().contains(x) <==> exists|i: int| 0 <= i < vals.len() && f.params[i].name == x)
            && (forall|i: int|
            0 <= i < vals.len() && (forall|j: int|
                i < j < vals.len() ==> f.params[j].name != f.params[i].name) ==> #[trigger] c2.e[f.params[i].name]
                == fresh((h.counter + i) as nat) && c2.s.dom().contains(fresh((h.counter + i) as nat)) && c2.s[fresh((h.counter + i) as nat)] == vals[i]) && (forall|a: Address|
            !(h.counter <= a.a < h.counter + vals.len()) ==> (#[trigger] c2.s.dom().contains(a)
                == c.s.dom().contains(a) && (c.s.dom().contains(a) ==> c2.s[a] == c.s[a]))),
{
    let n = h.counter;
    let args = literals(vals);
    let empty = Map::<Seq<char>, Address>::empty();
    if vals.len() == 0 {
        let c2 = ConfigV {
            c: ControlV::Stmt(f.body),
            e: empty,
            k: KontV::FunK(f.typ, c.e, Box::new(c.k)),
            ..c
        };
        assert(step(c, h) == Ok::<(ConfigV, nat), Halt>((c2, n)));
        assert(steps(c2, h, 0) == Ok::<(ConfigV, nat), Halt>((c2, n)));
        assert(steps(c, h, 1) == steps(c2, h, 0));
        assert forall|x: Seq<char>| #[trigger]
            empty.dom().contains(x) <==> exists|i: int| 0 <= i < vals.len() && f.params[i].name == x by {
        }
    } else {
        let c1 = ConfigV {
            c: ControlV::Expr(args[0]),
            k: KontV::CallK(
                f.typ,
                c.e,
                empty,
                f.body,
                f.params,
                args.drop_first(),
                Box::new(c.k),
            ),
            ..c
        };
        assert(step(c, h) == Ok::<(ConfigV, nat), Halt>((c1, n)));
        assert(h == HandlerV { counter: n, ..h });
        lemma_bind_rest(c1, h, f.typ, c.e, empty, f.body, f.params, vals, c.k);
        assert(steps(c, h, vals.len() + 1) == steps(c1, h, vals.len()));
        lemma_bind_names(empty, f.params, n);
        let e2 = bind_names(empty, f.params, n);
        assert forall|x: Seq<char>| #[trigger]
            e2.dom().contains(x) <==> exists|i: int| 0 <= i < vals.len() && f.params[i].name == x by {
            assert(f.params.len() == vals.len());
            assert(!empty.dom().contains(x));
        }
        let s2 = store_values(c.s, vals, n);
        assert forall|i: int|
            0 <= i < vals.len() && (forall|j: int|
                i < j < vals.len() ==> f.params[j].name != f.params[i].name) implies #[trigger] e2[f.params[i].name]
                == fresh((n + i) as nat) && s2.dom().contains(fresh((n + i) as nat)) && s2[fresh(
                (n + i) as nat,
            )] == vals[i] by {
            lemma_store_values(c.s, vals, n, i);
        }
        assert forall|a: Address| !(n <= a.a < n + vals.len()) implies (#[trigger] s2.dom().contains(
            a,
        ) == c.s.dom().contains(a) && (c.s.dom().contains(a) ==> s2[a] == c.s[a])) by {
            lemma_store_values_keeps(c.s, vals, n, a);
        }
    }
}

} // verus!
