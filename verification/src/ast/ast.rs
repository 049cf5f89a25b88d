use super::methods::{rc_clone, str_eq, str_lt};
use super::view::{fun_view, FunV};
use crate::conf::parts::address::Address;
use crate::parser::grammar::{insert_fun, main_name, name_lt};
use std::rc::Rc;
use std::sync::Arc;
use vstd::prelude::*;

verus! {

/// A shared handle on a value whose identity is the allocation it points to.
#[derive(Debug, Clone)]
pub struct Node<T>(Arc<T>);

/// `Arc::ptr_eq` from std: two handles on one allocation see one value, so a `true`
/// answer means the contents are equal; which allocations are shared is not stated.
#[verifier::external_body]
fn arc_ptr_eq<T>(a: &Arc<T>, b: &Arc<T>) -> (r: bool)
    ensures
        r ==> *a == *b,
{
    Arc::ptr_eq(a, b)
}

impl<T> Node<T> {
    /// The value this node points to.
    pub closed spec fn inner(&self) -> T {
        *self.0
    }

    /// Whether both nodes point to one allocation.
    pub fn ptr_eq(node1: &Self, node2: &Self) -> (r: bool)
        ensures
            r ==> node1.inner() == node2.inner(),
    {
        arc_ptr_eq(&node1.0, &node2.0)
    }

    pub fn get_arc(&self) -> (r: &Arc<T>)
        ensures
            **r == self.inner(),
    {
        &self.0
    }

    pub fn new(inner: T) -> (r: Self)
        ensures
            r.inner() == inner,
    {
        Node(Arc::new(inner))
    }
}

pub type Name = String;

#[derive(Debug, Clone, Copy, PartialEq, Eq, Structural, Hash, PartialOrd, Ord)]
pub enum Value {
    IntV(i32),
    BoolV(bool),
    UnitV,
    ArrayV { size: usize, start_of_array: Address },
    AddrV(Address),
}

#[derive(Debug, Clone, PartialEq, Eq, Hash)]
pub enum Type {
    IntT,
    BoolT,
    UnitT,
    ArrayT(Rc<Type>),
}

/// The type of a value; array values carry no element type and have none.
pub open spec fn type_of(v: Value) -> Type
    recommends
        !(v is ArrayV),
{
    match v {
        Value::IntV(_) => Type::IntT,
        Value::BoolV(_) => Type::BoolT,
        Value::UnitV => Type::UnitT,
        Value::ArrayV { .. } => Type::UnitT,
        Value::AddrV(_) => Type::IntT,
    }
}

impl Value {
    pub fn get_type(&self) -> (r: Type)
        requires
            !(*self is ArrayV),
        ensures
            r == type_of(*self),
    {
        match self {
            Value::IntV(_) => Type::IntT,
            Value::BoolV(_) => Type::BoolT,
            Value::UnitV => Type::UnitT,
            Value::AddrV(_) => Type::IntT,
            Value::ArrayV { .. } => Type::UnitT,
        }
    }
}

#[derive(Debug, Clone, Copy, PartialEq, Eq, Structural, Hash, PartialOrd, Ord)]
pub enum Operation {
    Add,
    Mult,
    Sub,
    Div,
    Rem,
    Eq,
    Neq,
    Lt,
    Gt,
    Lte,
    Gte,
}

pub open spec fn abs(a: int) -> int {
    if a < 0 {
        -a
    } else {
        a
    }
}

/// Division rounding towards zero, as Rust's `/` on integers.
pub open spec fn trunc_div(a: int, b: int) -> int {
    if (a >= 0) == (b > 0) || a == 0 {
        abs(a) / abs(b)
    } else {
        -(abs(a) / abs(b))
    }
}

/// The remainder that goes with `trunc_div`: it takes the sign of the dividend.
pub open spec fn trunc_rem(a: int, b: int) -> int {
    if a >= 0 {
        abs(a) % abs(b)
    } else {
        -(abs(a) % abs(b))
    }
}

/// Quotient and remainder go together as Rust's integer division has them: the dividend is
/// the divisor times the quotient plus the remainder, the remainder is smaller than the
/// divisor in size, and it is zero or has the sign of the dividend.
pub proof fn law_div_rem(a: int, b: int)
    requires
        b != 0,
    ensures
        a == b * trunc_div(a, b) + trunc_rem(a, b),
        abs(trunc_rem(a, b)) < abs(b),
        trunc_rem(a, b) == 0 || ((trunc_rem(a, b) < 0) == (a < 0)),
{
    let (x, y) = (abs(a), abs(b));
    assert(x == y * (x / y) + x % y && 0 <= x % y < y) by (nonlinear_arith)
        requires
            y > 0,
            x >= 0,
    ;
    if a >= 0 && b > 0 {
    } else if a >= 0 && b < 0 {
        assert(b * (-(x / y)) == y * (x / y)) by (nonlinear_arith)
            requires
                y == -b,
        ;
    } else if a < 0 && b > 0 {
        assert(b * (-(x / y)) == -(y * (x / y))) by (nonlinear_arith)
            requires
                y == b,
        ;
    } else {
        assert(b * (x / y) == -(y * (x / y))) by (nonlinear_arith)
            requires
                y == -b,
        ;
    }
}

pub open spec fn in_i32(x: int) -> bool {
    i32::MIN <= x <= i32::MAX
}

/// An integer result, or nothing where Rust's `i32` arithmetic would panic.
pub open spec fn int_result(x: int) -> Option<Value> {
    if in_i32(x) {
        Some(Value::IntV(x as i32))
    } else {
        None
    }
}

impl Operation {
    /// The value of `lhs op rhs`; `None` where the operation panics: operands that are not
    /// both integers, a result outside `i32`, or a zero divisor.
    pub open spec fn call_spec(self, lhs: Value, rhs: Value) -> Option<Value> {
        match (lhs, rhs) {
            (Value::IntV(l), Value::IntV(r)) => {
                let (a, b) = (l as int, r as int);
                match self {
                    Operation::Add => int_result(a + b),
                    Operation::Sub => int_result(a - b),
                    Operation::Mult => int_result(a * b),
                    Operation::Div => if b == 0 {
                        None
                    } else {
                        int_result(trunc_div(a, b))
                    },
                    Operation::Rem => if b == 0 || (a == i32::MIN && b == -1) {
                        None
                    } else {
                        int_result(trunc_rem(a, b))
                    },
                    Operation::Eq => Some(Value::BoolV(a == b)),
                    Operation::Neq => Some(Value::BoolV(a != b)),
                    Operation::Lt => Some(Value::BoolV(a < b)),
                    Operation::Gt => Some(Value::BoolV(a > b)),
                    Operation::Lte => Some(Value::BoolV(a <= b)),
                    Operation::Gte => Some(Value::BoolV(a >= b)),
                }
            },
            _ => None,
        }
    }

    /// `lhs op rhs`, or `None` on exactly the operands where `call` would panic.
    pub fn try_call(&self, lhs: &Value, rhs: &Value) -> (r: Option<Value>)
        ensures
            r == self.call_spec(*lhs, *rhs),
    {
        match (lhs, rhs) {
            (Value::IntV(l), Value::IntV(r)) => {
                let (l, r) = (*l, *r);
                match self {
                    Operation::Add => match l.checked_add(r) {
                        Some(x) => Some(Value::IntV(x)),
                        None => None,
                    },
                    Operation::Sub => match l.checked_sub(r) {
                        Some(x) => Some(Value::IntV(x)),
                        None => None,
                    },
                    Operation::Mult => match l.checked_mul(r) {
                        Some(x) => Some(Value::IntV(x)),
                        None => None,
                    },
                    Operation::Div => match l.checked_div(r) {
                        Some(x) => Some(Value::IntV(x)),
                        None => None,
                    },
                    Operation::Rem => match l.checked_rem(r) {
                        Some(x) => Some(Value::IntV(x)),
                        None => None,
                    },
                    Operation::Eq => Some(Value::BoolV(l == r)),
                    Operation::Neq => Some(Value::BoolV(l != r)),
                    Operation::Lt => Some(Value::BoolV(l < r)),
                    Operation::Gt => Some(Value::BoolV(l > r)),
                    Operation::Lte => Some(Value::BoolV(l <= r)),
                    Operation::Gte => Some(Value::BoolV(l >= r)),
                }
            },
            _ => None,
        }
    }

    pub fn call(&self, lhs: &Value, rhs: &Value) -> (r: Value)
        requires
            self.call_spec(*lhs, *rhs) is Some,
        ensures
            r == self.call_spec(*lhs, *rhs).unwrap(),
    {
        match self.try_call(lhs, rhs) {
            Some(v) => v,
            None => Value::UnitV,
        }
    }
}

/// The truth value that a comparison gives on two operands, where it gives one.
pub open spec fn truth(o: Option<Value>) -> bool {
    o == Some(Value::BoolV(true))
}

/// A boolean answer, given as `truth` reads it.
pub open spec fn answers_bool(o: Option<Value>) -> bool {
    o == Some(Value::BoolV(truth(o)))
}

/// On integers every comparison operator answers, with a boolean, and they agree with the
/// order of the integers: `>=` is reflexive and is the negation of `<`, `>` and `<=` are
/// `<` and `>=` with the operands swapped, `!=` is the negation of `==`, `<=` is `<` or
/// `==`, and of `<`, `==` and `>` exactly one holds.
pub proof fn law_comparisons_order_integers(a: i32, b: i32)
    ensures
        answers_bool(Operation::Eq.call_spec(Value::IntV(a), Value::IntV(b))),
        answers_bool(Operation::Neq.call_spec(Value::IntV(a), Value::IntV(b))),
        answers_bool(Operation::Lt.call_spec(Value::IntV(a), Value::IntV(b))),
        answers_bool(Operation::Gt.call_spec(Value::IntV(a), Value::IntV(b))),
        answers_bool(Operation::Lte.call_spec(Value::IntV(a), Value::IntV(b))),
        answers_bool(Operation::Gte.call_spec(Value::IntV(a), Value::IntV(b))),
        truth(Operation::Gte.call_spec(Value::IntV(a), Value::IntV(a))),
        truth(Operation::Lte.call_spec(Value::IntV(a), Value::IntV(a))),
        truth(Operation::Eq.call_spec(Value::IntV(a), Value::IntV(a))),
        !truth(Operation::Lt.call_spec(Value::IntV(a), Value::IntV(a))),
        !truth(Operation::Gt.call_spec(Value::IntV(a), Value::IntV(a))),
        !truth(Operation::Neq.call_spec(Value::IntV(a), Value::IntV(a))),
        truth(Operation::Gte.call_spec(Value::IntV(a), Value::IntV(b))) == !truth(
            Operation::Lt.call_spec(Value::IntV(a), Value::IntV(b)),
        ),
        truth(Operation::Gt.call_spec(Value::IntV(a), Value::IntV(b))) == truth(
            Operation::Lt.call_spec(Value::IntV(b), Value::IntV(a)),
        ),
        truth(Operation::Lte.call_spec(Value::IntV(a), Value::IntV(b))) == truth(
            Operation::Gte.call_spec(Value::IntV(b), Value::IntV(a)),
        ),
        truth(Operation::Neq.call_spec(Value::IntV(a), Value::IntV(b))) == !truth(
            Operation::Eq.call_spec(Value::IntV(a), Value::IntV(b)),
        ),
        truth(Operation::Lte.call_spec(Value::IntV(a), Value::IntV(b))) == (truth(
            Operation::Lt.call_spec(Value::IntV(a), Value::IntV(b)),
        ) || truth(Operation::Eq.call_spec(Value::IntV(a), Value::IntV(b)))),
        truth(Operation::Eq.call_spec(Value::IntV(a), Value::IntV(b))) == (a == b),
        truth(Operation::Lt.call_spec(Value::IntV(a), Value::IntV(b))) == (a < b),
        truth(Operation::Gte.call_spec(Value::IntV(a), Value::IntV(b))) == (a >= b),
        truth(Operation::Lt.call_spec(Value::IntV(a), Value::IntV(b))) as int + truth(
            Operation::Eq.call_spec(Value::IntV(a), Value::IntV(b)),
        ) as int + truth(Operation::Gt.call_spec(Value::IntV(a), Value::IntV(b))) as int == 1,
{
}

/// Arithmetic on integers is that of the integers wherever the result fits in `i32`:
/// `+` and `*` do not depend on the order of the operands, `-` undoes `+`, adding zero
/// and multiplying by one change nothing, and `/` and `%` give a quotient and a remainder
/// with `a == b * q + r`, the remainder smaller than the divisor in size and zero or of the
/// sign of the dividend.
pub proof fn law_arithmetic_on_integers(a: i32, b: i32)
    ensures
        Operation::Add.call_spec(Value::IntV(a), Value::IntV(b)) == Operation::Add.call_spec(
            Value::IntV(b),
            Value::IntV(a),
        ),
        Operation::Mult.call_spec(Value::IntV(a), Value::IntV(b)) == Operation::Mult.call_spec(
            Value::IntV(b),
            Value::IntV(a),
        ),
        Operation::Add.call_spec(Value::IntV(a), Value::IntV(0)) == Some(Value::IntV(a)),
        Operation::Sub.call_spec(Value::IntV(a), Value::IntV(0)) == Some(Value::IntV(a)),
        Operation::Mult.call_spec(Value::IntV(a), Value::IntV(1)) == Some(Value::IntV(a)),
        Operation::Sub.call_spec(Value::IntV(a), Value::IntV(a)) == Some(Value::IntV(0)),
        in_i32(a + b) ==> (Operation::Add.call_spec(Value::IntV(a), Value::IntV(b)) matches Some(
            Value::IntV(s),
        ) && s == a + b && Operation::Sub.call_spec(Value::IntV(s), Value::IntV(b)) == Some(
            Value::IntV(a),
        )),
        in_i32(a - b) ==> (Operation::Sub.call_spec(Value::IntV(a), Value::IntV(b)) matches Some(
            Value::IntV(d),
        ) && d == a - b),
        in_i32(a * b) ==> (Operation::Mult.call_spec(Value::IntV(a), Value::IntV(b)) matches Some(
            Value::IntV(m),
        ) && m == a * b),
        !in_i32(a + b) ==> Operation::Add.call_spec(Value::IntV(a), Value::IntV(b)) is None,
        !in_i32(a - b) ==> Operation::Sub.call_spec(Value::IntV(a), Value::IntV(b)) is None,
        !in_i32(a * b) ==> Operation::Mult.call_spec(Value::IntV(a), Value::IntV(b)) is None,
        b == 0 ==> Operation::Div.call_spec(Value::IntV(a), Value::IntV(b)) is None
            && Operation::Rem.call_spec(Value::IntV(a), Value::IntV(b)) is None,
        b != 0 && !(a == i32::MIN && b == -1) ==> (Operation::Div.call_spec(
            Value::IntV(a),
            Value::IntV(b),
        ) matches Some(Value::IntV(q)) && Operation::Rem.call_spec(
            Value::IntV(a),
            Value::IntV(b),
        ) matches Some(Value::IntV(r)) && a == b * q + r && abs(r as int) < abs(b as int) && (r
            == 0 || ((r < 0) == (a < 0)))),
{
    assert(a * b == b * a) by (nonlinear_arith);
    assert(a * 1 == a) by (nonlinear_arith);
    if b != 0 {
        law_div_rem(a as int, b as int);
        let (q, r) = (trunc_div(a as int, b as int), trunc_rem(a as int, b as int));
        assert(abs(r) < abs(b as int));
        if !(a == i32::MIN && b == -1) {
            let (x, y) = (abs(a as int), abs(b as int));
            assert(x / y <= x && (x / y == x && x > 0 ==> y == 1)) by (nonlinear_arith)
                requires
                    y >= 1,
                    x >= 0,
            {
                if x / y == x && x > 0 {
                    assert(x == y * (x / y) + x % y);
                }
            }
            assert(in_i32(q));
            assert(in_i32(r));
        }
    }
}

#[derive(Debug, Clone, Copy, PartialEq, Eq, Structural, Hash, PartialOrd, Ord)]
pub enum UOperation {
    Neg,
    Not,
}

impl UOperation {
    /// The value of `op rhs`; `None` where the operation panics: a negation of a
    /// non-integer or of `i32::MIN`, a logical not of a non-boolean.
    pub open spec fn call_spec(self, rhs: Value) -> Option<Value> {
        match (self, rhs) {
            (UOperation::Neg, Value::IntV(x)) => int_result(-(x as int)),
            (UOperation::Not, Value::BoolV(b)) => Some(Value::BoolV(!b)),
            _ => None,
        }
    }

    /// `op rhs`, or `None` on exactly the operands where `call` would panic.
    pub fn try_call(&self, rhs: &Value) -> (r: Option<Value>)
        ensures
            r == self.call_spec(*rhs),
    {
        match (self, rhs) {
            (UOperation::Neg, Value::IntV(x)) => if *x == i32::MIN {
                None
            } else {
                Some(Value::IntV(-*x))
            },
            (UOperation::Not, Value::BoolV(b)) => Some(Value::BoolV(!*b)),
            _ => None,
        }
    }

    pub fn call(&self, rhs: &Value) -> (r: Value)
        requires
            self.call_spec(*rhs) is Some,
        ensures
            r == self.call_spec(*rhs).unwrap(),
    {
        match self.try_call(rhs) {
            Some(v) => v,
            None => Value::UnitV,
        }
    }
}

#[derive(Debug, Clone, PartialEq, Eq, Hash)]
pub enum Expr {
    Val { value: Rc<Value> },
    UnaryOp { op: UOperation, expr: Rc<Expr> },
    BinaryOp { lhs: Rc<Expr>, op: Operation, rhs: Rc<Expr> },
    Var { name: Name },
    CallName { callee: Name, args: Arguments },
    Array { elements: Vec<Rc<Expr>> },
    Index { array: Name, index: Rc<Expr> },
    CallRef { fun: Rc<Fun>, args: Arguments },
}

#[derive(Debug, Clone, PartialEq, Eq, Hash)]
pub enum Stmt {
    ForD {
        init: Option<Rc<Expr>>,
        condition: Rc<Expr>,
        update: Option<Rc<Expr>>,
        body: Rc<Stmt>,
    },
    If { condition: Rc<Expr>, then_branch: Rc<Stmt>, else_branch: Option<Rc<Stmt>> },
    Assign { lhs: Rc<Expr>, rhs: Rc<Expr> },
    ExprStmt { expr: Rc<Expr> },
    Decl { typ: Type, name: Name, expr: Option<Rc<Expr>> },
    Return { expr: Rc<Expr> },
    Block { stmts: Vec<Rc<Stmt>> },
    While { condition: Rc<Expr>, body: Rc<Stmt> },
    Continue,
    Break,
}

#[derive(Debug, Clone, PartialEq, Eq, Hash)]
pub struct Arguments {
    pub args: Vec<Rc<Expr>>,
}

#[derive(Debug, Clone, PartialEq, Eq, Hash)]
pub struct ParamList {
    pub params: Vec<Param>,
}

#[derive(Debug, Clone, PartialEq, Eq, Hash)]
pub struct Param {
    pub typ: Type,
    pub name: Name,
}

#[derive(Debug, Clone, PartialEq, Eq, Hash)]
pub struct Fun {
    pub typ: Type,
    pub name: Name,
    pub params: Rc<ParamList>,
    pub body: Rc<Stmt>,
}

impl Stmt {
    pub fn for_d(
        init: Option<Rc<Expr>>,
        condition: Rc<Expr>,
        update: Option<Rc<Expr>>,
        body: Rc<Stmt>,
    ) -> (r: Stmt)
        ensures
            r == (Stmt::ForD { init, condition, update, body }),
    {
        Stmt::ForD { init, condition, update, body }
    }

    pub fn if_(condition: Rc<Expr>, then_branch: Rc<Stmt>, else_branch: Option<Rc<Stmt>>) -> (r:
        Stmt)
        ensures
            r == (Stmt::If { condition, then_branch, else_branch }),
    {
        Stmt::If { condition, then_branch, else_branch }
    }

    pub fn assign(lhs: Rc<Expr>, rhs: Rc<Expr>) -> (r: Stmt)
        ensures
            r == (Stmt::Assign { lhs, rhs }),
    {
        Stmt::Assign { lhs, rhs }
    }

    pub fn expr_stmt(expr: Rc<Expr>) -> (r: Stmt)
        ensures
            r == (Stmt::ExprStmt { expr }),
    {
        Stmt::ExprStmt { expr }
    }

    pub fn decl(typ: Type, name: Name, expr: Option<Rc<Expr>>) -> (r: Stmt)
        ensures
            r == (Stmt::Decl { typ, name, expr }),
    {
        Stmt::Decl { typ, name, expr }
    }

    pub fn return_(expr: Rc<Expr>) -> (r: Stmt)
        ensures
            r == (Stmt::Return { expr }),
    {
        Stmt::Return { expr }
    }

    pub fn block(stmts: Vec<Rc<Stmt>>) -> (r: Stmt)
        ensures
            r == (Stmt::Block { stmts }),
    {
        Stmt::Block { stmts }
    }

    pub fn while_(condition: Rc<Expr>, body: Rc<Stmt>) -> (r: Stmt)
        ensures
            r == (Stmt::While { condition, body }),
    {
        Stmt::While { condition, body }
    }

    pub fn continue_() -> (r: Stmt)
        ensures
            r == Stmt::Continue,
    {
        Stmt::Continue
    }

    pub fn break_() -> (r: Stmt)
        ensures
            r == Stmt::Break,
    {
        Stmt::Break
    }
}

impl Expr {
    pub fn val(value: Rc<Value>) -> (r: Expr)
        ensures
            r == (Expr::Val { value }),
    {
        Expr::Val { value }
    }

    pub fn unary_op(op: UOperation, expr: Rc<Expr>) -> (r: Expr)
        ensures
            r == (Expr::UnaryOp { op, expr }),
    {
        Expr::UnaryOp { op, expr }
    }

    pub fn binary_op(lhs: Rc<Expr>, op: Operation, rhs: Rc<Expr>) -> (r: Expr)
        ensures
            r == (Expr::BinaryOp { lhs, op, rhs }),
    {
        Expr::BinaryOp { lhs, op, rhs }
    }

    pub fn var(name: Name) -> (r: Expr)
        ensures
            r == (Expr::Var { name }),
    {
        Expr::Var { name }
    }

    pub fn call_name(callee: Name, args: Arguments) -> (r: Expr)
        ensures
            r == (Expr::CallName { callee, args }),
    {
        Expr::CallName { callee, args }
    }

    pub fn array(elements: Vec<Rc<Expr>>) -> (r: Expr)
        ensures
            r == (Expr::Array { elements }),
    {
        Expr::Array { elements }
    }

    pub fn index(array: Name, index: Rc<Expr>) -> (r: Expr)
        ensures
            r == (Expr::Index { array, index }),
    {
        Expr::Index { array, index }
    }

    pub fn call_ref(fun: Rc<Fun>, args: Arguments) -> (r: Expr)
        ensures
            r == (Expr::CallRef { fun, args }),
    {
        Expr::CallRef { fun, args }
    }
}


/// The functions of a program, kept in the order of their names, one per name.
#[derive(Debug, Clone)]
pub struct Program {
    pub funs: Vec<Fun>,
}

pub open spec fn funs_view(s: Seq<Fun>) -> Seq<FunV> {
    s.map_values(|f: Fun| fun_view(f))
}

impl View for Program {
    type V = Seq<FunV>;

    open spec fn view(&self) -> Seq<FunV> {
        funs_view(self.funs@)
    }
}

/// The function named `name` among `funs`: the first one of that name.
pub open spec fn find_fun(funs: Seq<FunV>, name: Seq<char>) -> Option<FunV>
    decreases funs.len(),
{
    if funs.len() == 0 {
        None
    } else if funs[0].name == name {
        Some(funs[0])
    } else {
        find_fun(funs.drop_first(), name)
    }
}

/// The result of `insert_fun`, read off at the place where the scan for `f` stops.
proof fn lemma_insert_fun_at(m: Seq<FunV>, f: FunV, idx: int)
    requires
        0 <= idx <= m.len(),
        forall|k: int| 0 <= k < idx ==> m[k].name != f.name && !name_lt(f.name, #[trigger] m[k].name),
        idx < m.len() ==> (m[idx].name == f.name || name_lt(f.name, m[idx].name)),
    ensures
        insert_fun(m, f) == if idx < m.len() && m[idx].name == f.name {
            m.take(idx) + seq![f] + m.skip(idx + 1)
        } else {
            m.take(idx) + seq![f] + m.skip(idx)
        },
    decreases idx,
{
    if idx == 0 {
        if m.len() > 0 && m[0].name == f.name {
            assert(m.skip(1) =~= m.drop_first());
            assert(m.take(0) + seq![f] + m.skip(1) =~= seq![f] + m.drop_first());
        } else {
            assert(m.take(0) + seq![f] + m.skip(0) =~= seq![f] + m);
        }
    } else {
        let t = m.drop_first();
        assert forall|k: int| 0 <= k < idx - 1 implies t[k].name != f.name && !name_lt(
            f.name,
            #[trigger] t[k].name,
        ) by {
            assert(t[k] == m[k + 1]);
        }
        lemma_insert_fun_at(t, f, idx - 1);
        if idx < m.len() && m[idx].name == f.name {
            assert(seq![m[0]] + (t.take(idx - 1) + seq![f] + t.skip(idx)) =~= m.take(idx) + seq![
                f,
            ] + m.skip(idx + 1));
        } else {
            assert(seq![m[0]] + (t.take(idx - 1) + seq![f] + t.skip(idx - 1)) =~= m.take(idx)
                + seq![f] + m.skip(idx));
        }
    }
}

proof fn lemma_find_fun(funs: Seq<FunV>, name: Seq<char>, k: int)
    requires
        0 <= k <= funs.len(),
        forall|j: int| 0 <= j < k ==> #[trigger] funs[j].name != name,
    ensures
        find_fun(funs, name) == find_fun(funs.skip(k), name),
    decreases k,
{
    if k > 0 {
        let t = funs.drop_first();
        assert forall|j: int| 0 <= j < k - 1 implies #[trigger] t[j].name != name by {
            assert(t[j] == funs[j + 1]);
        }
        lemma_find_fun(t, name, k - 1);
        assert(t.skip(k - 1) =~= funs.skip(k));
    } else {
        assert(funs.skip(0) =~= funs);
    }
}

impl Program {
    pub fn new() -> (r: Self)
        ensures
            r@ == Seq::<FunV>::empty(),
    {
        let r = Self { funs: Vec::new() };
        assert(r@ =~= Seq::<FunV>::empty());
        r
    }

    /// Adds a function, in the place its name gives it, replacing one of the same name.
    pub fn insert(&mut self, fun: Fun)
        ensures
            final(self)@ == insert_fun(old(self)@, fun@),
    {
        let ghost m = self@;
        let mut k: usize = 0;
        while k < self.funs.len() && !str_eq(self.funs[k].name.as_str(), fun.name.as_str())
            && !str_lt(fun.name.as_str(), self.funs[k].name.as_str())
            invariant
                k <= self.funs.len(),
                m == self@,
                forall|j: int|
                    0 <= j < k ==> m[j].name != fun@.name && !name_lt(
                        fun@.name,
                        #[trigger] m[j].name,
                    ),
            decreases self.funs.len() - k,
        {
            k = k + 1;
        }
        proof {
            lemma_insert_fun_at(m, fun@, k as int);
        }
        if k < self.funs.len() && str_eq(self.funs[k].name.as_str(), fun.name.as_str()) {
            self.funs.set(k, fun);
            proof {
                assert(self@ =~= m.take(k as int) + seq![fun@] + m.skip(k + 1));
            }
        } else {
            self.funs.insert(k, fun);
            proof {
                assert(self@ =~= m.take(k as int) + seq![fun@] + m.skip(k as int));
            }
        }
    }

    /// The function of the given name.
    pub fn get(&self, name: &str) -> (r: Option<&Fun>)
        ensures
            match r {
                Some(f) => find_fun(self@, name@) == Some(f@),
                None => find_fun(self@, name@) is None,
            },
    {
        let mut k: usize = 0;
        while k < self.funs.len()
            invariant
                k <= self.funs.len(),
                forall|j: int| 0 <= j < k ==> #[trigger] self@[j].name != name@,
            decreases self.funs.len() - k,
        {
            if str_eq(self.funs[k].name.as_str(), name) {
                proof {
                    lemma_find_fun(self@, name@, k as int);
                }
                return Some(&self.funs[k]);
            }
            k = k + 1;
        }
        proof {
            lemma_find_fun(self@, name@, k as int);
        }
        None
    }

    /// The body of `main`, where the program starts.
    pub fn get_entry(&mut self) -> (r: Result<Rc<Stmt>, &'static str>)
        ensures
            *final(self) == *old(self),
            match r {
                Ok(body) => find_fun(old(self)@, main_name()) matches Some(f) && (*body)@ == f.body,
                Err(e) => find_fun(old(self)@, main_name()) is None && e@ == "failed to get entry point"@,
            },
    {
        let main = "main";
        proof {
            reveal_strlit("main");
        }
        assert(main@ =~= main_name());
        match self.get(main) {
            Some(fun) => Ok(rc_clone(&fun.body)),
            None => Err("failed to get entry point"),
        }
    }
}

/// No two functions of `m` share a name, and they stand in the order of their names.
pub open spec fn names_sorted(m: Seq<FunV>) -> bool {
    forall|i: int, j: int| 0 <= i < j < m.len() ==> name_lt(#[trigger] m[i].name, #[trigger] m[j].name)
}

proof fn lemma_name_lt_irreflexive(a: Seq<char>)
    ensures
        !name_lt(a, a),
    decreases a.len(),
{
    if a.len() > 0 {
        lemma_name_lt_irreflexive(a.drop_first());
    }
}

proof fn lemma_name_lt_transitive(a: Seq<char>, b: Seq<char>, c: Seq<char>)
    requires
        name_lt(a, b),
        name_lt(b, c),
    ensures
        name_lt(a, c),
    decreases a.len(),
{
    if a.len() > 0 && b.len() > 0 && c.len() > 0 && a[0] == b[0] && b[0] == c[0] {
        lemma_name_lt_transitive(a.drop_first(), b.drop_first(), c.drop_first());
    }
}

proof fn lemma_name_lt_total(a: Seq<char>, b: Seq<char>)
    requires
        a != b,
    ensures
        name_lt(a, b) || name_lt(b, a),
    decreases a.len(),
{
    if a.len() > 0 && b.len() > 0 && a[0] != b[0] {
        vstd::utf8::char_u32_cast(a[0], a[0] as u32);
        vstd::utf8::char_u32_cast(b[0], b[0] as u32);
    } else if a.len() > 0 && b.len() > 0 && a[0] == b[0] {
        if a.drop_first() == b.drop_first() {
            assert(a =~= seq![a[0]] + a.drop_first());
            assert(b =~= seq![b[0]] + b.drop_first());
        }
        lemma_name_lt_total(a.drop_first(), b.drop_first());
    } else if a.len() == 0 && b.len() == 0 {
        assert(a =~= b);
    }
}

/// Each function of `insert_fun(m, f)` is `f` or one of `m`.
proof fn lemma_insert_fun_members(m: Seq<FunV>, f: FunV)
    ensures
        forall|i: int|
            0 <= i < insert_fun(m, f).len() ==> #[trigger] insert_fun(m, f)[i] == f || m.contains(
                insert_fun(m, f)[i],
            ),
    decreases m.len(),
{
    if m.len() > 0 && m[0].name != f.name && !name_lt(f.name, m[0].name) {
        let t = m.drop_first();
        lemma_insert_fun_members(t, f);
        assert forall|i: int| 0 <= i < insert_fun(m, f).len() implies #[trigger] insert_fun(m, f)[i]
            == f || m.contains(insert_fun(m, f)[i]) by {
            if i == 0 {
                assert(m[0] == insert_fun(m, f)[0]);
            } else {
                assert(insert_fun(m, f)[i] == insert_fun(t, f)[i - 1]);
                if insert_fun(t, f)[i - 1] != f {
                    let j = choose|j: int| 0 <= j < t.len() && t[j] == insert_fun(t, f)[i - 1];
                    assert(m[j + 1] == t[j]);
                }
            }
        }
    } else if m.len() > 0 && m[0].name == f.name {
        assert forall|i: int| 0 <= i < insert_fun(m, f).len() implies #[trigger] insert_fun(m, f)[i]
            == f || m.contains(insert_fun(m, f)[i]) by {
            if i > 0 {
                assert(insert_fun(m, f)[i] == m[i]);
            }
        }
    } else if m.len() > 0 {
        assert forall|i: int| 0 <= i < insert_fun(m, f).len() implies #[trigger] insert_fun(m, f)[i]
            == f || m.contains(insert_fun(m, f)[i]) by {
            if i > 0 {
                assert(insert_fun(m, f)[i] == m[i - 1]);
            }
        }
    }
}

/// Adding a function keeps the functions of a program in name order, one per name.
pub proof fn law_insert_keeps_names_sorted(m: Seq<FunV>, f: FunV)
    requires
        names_sorted(m),
    ensures
        names_sorted(insert_fun(m, f)),
    decreases m.len(),
{
    let r = insert_fun(m, f);
    if m.len() == 0 {
    } else if m[0].name == f.name {
        assert forall|i: int, j: int| 0 <= i < j < r.len() implies name_lt(
            #[trigger] r[i].name,
            #[trigger] r[j].name,
        ) by {
            assert(r[j] == m[j]);
            if i > 0 {
                assert(r[i] == m[i]);
            }
        }
    } else if name_lt(f.name, m[0].name) {
        assert forall|i: int, j: int| 0 <= i < j < r.len() implies name_lt(
            #[trigger] r[i].name,
            #[trigger] r[j].name,
        ) by {
            assert(r[j] == m[j - 1]);
            if i > 0 {
                assert(r[i] == m[i - 1]);
            } else if j > 1 {
                assert(name_lt(m[0].name, m[j - 1].name));
                lemma_name_lt_transitive(f.name, m[0].name, m[j - 1].name);
            }
        }
    } else {
        let t = m.drop_first();
        lemma_name_lt_total(f.name, m[0].name);
        assert(names_sorted(t)) by {
            assert forall|i: int, j: int| 0 <= i < j < t.len() implies name_lt(
                #[trigger] t[i].name,
                #[trigger] t[j].name,
            ) by {
                assert(t[i] == m[i + 1] && t[j] == m[j + 1]);
            }
        }
        law_insert_keeps_names_sorted(t, f);
        lemma_insert_fun_members(t, f);
        let rt = insert_fun(t, f);
        assert forall|i: int, j: int| 0 <= i < j < r.len() implies name_lt(
            #[trigger] r[i].name,
            #[trigger] r[j].name,
        ) by {
            assert(r[j] == rt[j - 1]);
            if i > 0 {
                assert(r[i] == rt[i - 1]);
            } else {
                assert(r[0] == m[0]);
                if rt[j - 1] != f {
                    let k = choose|k: int| 0 <= k < t.len() && t[k] == rt[j - 1];
                    assert(m[k + 1] == t[k]);
                }
            }
        }
    }
}

/// After `f` is added, looking up its name gives `f`, and looking up any other name gives
/// what it gave before.
pub proof fn law_insert_then_find(m: Seq<FunV>, f: FunV, name: Seq<char>)
    ensures
        find_fun(insert_fun(m, f), f.name) == Some(f),
        name != f.name ==> find_fun(insert_fun(m, f), name) == find_fun(m, name),
    decreases m.len(),
{
    let r = insert_fun(m, f);
    if m.len() == 0 {
    } else if m[0].name == f.name {
        assert(r.drop_first() =~= m.drop_first());
        if name != f.name {
            assert(find_fun(r, name) == find_fun(r.drop_first(), name));
            assert(find_fun(m, name) == find_fun(m.drop_first(), name));
        }
    } else if name_lt(f.name, m[0].name) {
        assert(r.drop_first() =~= m);
        if name != f.name {
            assert(find_fun(r, name) == find_fun(r.drop_first(), name));
        }
    } else {
        law_insert_then_find(m.drop_first(), f, name);
        assert(r.drop_first() =~= insert_fun(m.drop_first(), f));
    }
}

/// In a program whose functions are in name order, one per name, the function found for a
/// name is the one of that name.
pub proof fn law_sorted_find(m: Seq<FunV>, i: int)
    requires
        names_sorted(m),
        0 <= i < m.len(),
    ensures
        find_fun(m, m[i].name) == Some(m[i]),
{
    assert forall|j: int| 0 <= j < i implies #[trigger] m[j].name != m[i].name by {
        lemma_name_lt_irreflexive(m[i].name);
    }
    lemma_find_fun(m, m[i].name, i);
    assert(m.skip(i)[0] == m[i]);
}

} // verus!
