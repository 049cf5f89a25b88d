use super::ast::{Expr, Fun, Operation, Param, Stmt, Type, UOperation, Value};
use std::rc::Rc;
use vstd::prelude::*;

verus! {

/// The mathematical content of an expression: names as character sequences.
pub enum ExprV {
    Val(Value),
    UnaryOp(UOperation, Box<ExprV>),
    BinaryOp(Box<ExprV>, Operation, Box<ExprV>),
    Var(Seq<char>),
    CallName(Seq<char>, Seq<ExprV>),
    Array(Seq<ExprV>),
    Index(Seq<char>, Box<ExprV>),
    CallRef(Box<FunV>, Seq<ExprV>),
}

/// The mathematical content of a statement.
pub enum StmtV {
    ForD(Option<Box<ExprV>>, Box<ExprV>, Option<Box<ExprV>>, Box<StmtV>),
    If(Box<ExprV>, Box<StmtV>, Option<Box<StmtV>>),
    Assign(Box<ExprV>, Box<ExprV>),
    ExprStmt(Box<ExprV>),
    Decl(Type, Seq<char>, Option<Box<ExprV>>),
    Return(Box<ExprV>),
    Block(Seq<StmtV>),
    While(Box<ExprV>, Box<StmtV>),
    Continue,
    Break,
}

pub struct ParamV {
    pub typ: Type,
    pub name: Seq<char>,
}

pub struct FunV {
    pub typ: Type,
    pub name: Seq<char>,
    pub params: Seq<ParamV>,
    pub body: StmtV,
}

pub open spec fn param_view(p: Param) -> ParamV {
    ParamV { typ: p.typ, name: p.name@ }
}

pub open spec fn params_view(ps: Seq<Param>) -> Seq<ParamV> {
    ps.map_values(|p: Param| param_view(p))
}

pub open spec fn opt_expr_view(e: Option<Rc<Expr>>) -> Option<Box<ExprV>> {
    match e {
        Some(x) => Some(Box::new(expr_view(*x))),
        None => None,
    }
}

pub open spec fn expr_view(e: Expr) -> ExprV
    decreases e, 0nat,
{
    match e {
        Expr::Val { value } => ExprV::Val(*value),
        Expr::UnaryOp { op, expr } => ExprV::UnaryOp(op, Box::new(expr_view(*expr))),
        Expr::BinaryOp { lhs, op, rhs } => ExprV::BinaryOp(
            Box::new(expr_view(*lhs)),
            op,
            Box::new(expr_view(*rhs)),
        ),
        Expr::Var { name } => ExprV::Var(name@),
        Expr::CallName { callee, args } => ExprV::CallName(callee@, exprs_view(args.args@)),
        Expr::Array { elements } => ExprV::Array(exprs_view(elements@)),
        Expr::Index { array, index } => ExprV::Index(array@, Box::new(expr_view(*index))),
        Expr::CallRef { fun, args } => ExprV::CallRef(
            Box::new(fun_view(*fun)),
            exprs_view(args.args@),
        ),
    }
}

pub open spec fn exprs_view(s: Seq<Rc<Expr>>) -> Seq<ExprV>
    decreases s, 1nat,
{
    if s.len() == 0 {
        Seq::empty()
    } else {
        seq![expr_view(*s[0])] + exprs_view(s.drop_first())
    }
}

pub open spec fn fun_view(f: Fun) -> FunV
    decreases f, 3nat,
{
    FunV {
        typ: f.typ,
        name: f.name@,
        params: params_view(f.params.params@),
        body: stmt_view(*f.body),
    }
}

pub open spec fn opt_stmt_view(s: Option<Rc<Stmt>>) -> Option<Box<StmtV>> {
    match s {
        Some(x) => Some(Box::new(stmt_view(*x))),
        None => None,
    }
}

pub open spec fn stmt_view(s: Stmt) -> StmtV
    decreases s, 4nat,
{
    match s {
        Stmt::ForD { init, condition, update, body } => StmtV::ForD(
            match init {
                Some(x) => Some(Box::new(expr_view(*x))),
                None => None,
            },
            Box::new(expr_view(*condition)),
            match update {
                Some(x) => Some(Box::new(expr_view(*x))),
                None => None,
            },
            Box::new(stmt_view(*body)),
        ),
        Stmt::If { condition, then_branch, else_branch } => StmtV::If(
            Box::new(expr_view(*condition)),
            Box::new(stmt_view(*then_branch)),
            match else_branch {
                Some(x) => Some(Box::new(stmt_view(*x))),
                None => None,
            },
        ),
        Stmt::Assign { lhs, rhs } => StmtV::Assign(
            Box::new(expr_view(*lhs)),
            Box::new(expr_view(*rhs)),
        ),
        Stmt::ExprStmt { expr } => StmtV::ExprStmt(Box::new(expr_view(*expr))),
        Stmt::Decl { typ, name, expr } => StmtV::Decl(
            typ,
            name@,
            match expr {
                Some(x) => Some(Box::new(expr_view(*x))),
                None => None,
            },
        ),
        Stmt::Return { expr } => StmtV::Return(Box::new(expr_view(*expr))),
        Stmt::Block { stmts } => StmtV::Block(stmts_view(stmts@)),
        Stmt::While { condition, body } => StmtV::While(
            Box::new(expr_view(*condition)),
            Box::new(stmt_view(*body)),
        ),
        Stmt::Continue => StmtV::Continue,
        Stmt::Break => StmtV::Break,
    }
}

pub open spec fn stmts_view(s: Seq<Rc<Stmt>>) -> Seq<StmtV>
    decreases s, 6nat,
{
    if s.len() == 0 {
        Seq::empty()
    } else {
        seq![stmt_view(*s[0])] + stmts_view(s.drop_first())
    }
}

impl View for Expr {
    type V = ExprV;

    open spec fn view(&self) -> ExprV {
        expr_view(*self)
    }
}

impl View for Stmt {
    type V = StmtV;

    open spec fn view(&self) -> StmtV {
        stmt_view(*self)
    }
}

impl View for Fun {
    type V = FunV;

    open spec fn view(&self) -> FunV {
        fun_view(*self)
    }
}

impl View for Param {
    type V = ParamV;

    open spec fn view(&self) -> ParamV {
        param_view(*self)
    }
}

/// The views of a sequence of expressions, element by element.
pub proof fn lemma_exprs_view(s: Seq<Rc<Expr>>)
    ensures
        exprs_view(s).len() == s.len(),
        forall|i: int| 0 <= i < s.len() ==> #[trigger] exprs_view(s)[i] == expr_view(*s[i]),
    decreases s.len(),
{
    if s.len() > 0 {
        lemma_exprs_view(s.drop_first());
        assert forall|i: int| 0 <= i < s.len() implies #[trigger] exprs_view(s)[i] == expr_view(
            *s[i],
        ) by {
            if i > 0 {
                assert(s.drop_first()[i - 1] == s[i]);
            }
        }
    }
}

/// The views of a sequence of statements, element by element.
pub proof fn lemma_stmts_view(s: Seq<Rc<Stmt>>)
    ensures
        stmts_view(s).len() == s.len(),
        forall|i: int| 0 <= i < s.len() ==> #[trigger] stmts_view(s)[i] == stmt_view(*s[i]),
    decreases s.len(),
{
    if s.len() > 0 {
        lemma_stmts_view(s.drop_first());
        assert forall|i: int| 0 <= i < s.len() implies #[trigger] stmts_view(s)[i] == stmt_view(
            *s[i],
        ) by {
            if i > 0 {
                assert(s.drop_first()[i - 1] == s[i]);
            }
        }
    }
}

/// Two sequences of expressions have equal views when they agree element by element.
pub proof fn lemma_exprs_view_ext(a: Seq<Rc<Expr>>, b: Seq<Rc<Expr>>)
    requires
        a.len() == b.len(),
        forall|i: int| 0 <= i < a.len() ==> expr_view(*a[i]) == expr_view(*b[i]),
    ensures
        exprs_view(a) == exprs_view(b),
{
    lemma_exprs_view(a);
    lemma_exprs_view(b);
    assert(exprs_view(a) =~= exprs_view(b));
}

/// Two sequences of statements have equal views when they agree element by element.
pub proof fn lemma_stmts_view_ext(a: Seq<Rc<Stmt>>, b: Seq<Rc<Stmt>>)
    requires
        a.len() == b.len(),
        forall|i: int| 0 <= i < a.len() ==> stmt_view(*a[i]) == stmt_view(*b[i]),
    ensures
        stmts_view(a) == stmts_view(b),
{
    lemma_stmts_view(a);
    lemma_stmts_view(b);
    assert(stmts_view(a) =~= stmts_view(b));
}

} // verus!
verus! {

/// Appending an expression appends its view.
pub proof fn lemma_exprs_view_push(s: Seq<Rc<Expr>>, x: Rc<Expr>)
    ensures
        exprs_view(s.push(x)) == exprs_view(s).push(expr_view(*x)),
{
    lemma_exprs_view(s);
    lemma_exprs_view(s.push(x));
    assert(exprs_view(s.push(x)) =~= exprs_view(s).push(expr_view(*x)));
}

/// Appending a statement appends its view.
pub proof fn lemma_stmts_view_push(s: Seq<Rc<Stmt>>, x: Rc<Stmt>)
    ensures
        stmts_view(s.push(x)) == stmts_view(s).push(stmt_view(*x)),
{
    lemma_stmts_view(s);
    lemma_stmts_view(s.push(x));
    assert(stmts_view(s.push(x)) =~= stmts_view(s).push(stmt_view(*x)));
}

} // verus!
