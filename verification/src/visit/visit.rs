//! Walking the syntax tree with a visitor: the order of the visits, and what a visitor
//! holds after a walk.
use crate::ast::ast::{Arguments, Expr, Fun, Name, Operation, ParamList, Program, Stmt, Type, UOperation, Value};
use crate::ast::view::{
    exprs_view, lemma_exprs_view, lemma_stmts_view, params_view, stmts_view, ExprV, FunV, ParamV,
    StmtV,
};
use std::rc::Rc;
use vstd::prelude::*;

verus! {

/// A node of the tree as a visitor sees it.
pub enum NodeV {
    Name(Seq<char>),
    Value(Value),
    Operation(Operation),
    UOperation(UOperation),
    Expr(ExprV),
    Type(Type),
    Stmt(StmtV),
    Arguments(Seq<ExprV>),
    ParamList(Seq<ParamV>),
    Fun(FunV),
    Program(Seq<FunV>),
}

/// A call of a visitor: before (`Pre`) or after (`Post`) the children of a node.
pub enum Visit {
    Pre(NodeV),
    Post(NodeV),
}

/// The visits of a node with the visits `inner` of its children in between.
pub open spec fn around(n: NodeV, inner: Seq<Visit>) -> Seq<Visit> {
    seq![Visit::Pre(n)] + inner + seq![Visit::Post(n)]
}

/// The visits of a node without children.
pub open spec fn leaf(n: NodeV) -> Seq<Visit> {
    around(n, Seq::empty())
}

pub open spec fn type_walk(t: Type) -> Seq<Visit>
    decreases t,
{
    around(
        NodeV::Type(t),
        match t {
            Type::ArrayT(inner) => type_walk(*inner),
            _ => Seq::empty(),
        },
    )
}

/// The visits of an expression, in the order a walk makes them.
pub open spec fn expr_walk(e: ExprV) -> Seq<Visit>
    decreases e, 0nat,
{
    around(
        NodeV::Expr(e),
        match e {
            ExprV::Val(v) => leaf(NodeV::Value(v)),
            ExprV::BinaryOp(l, op, r) => expr_walk(*l) + leaf(NodeV::Operation(op)) + expr_walk(
                *r,
            ),
            ExprV::UnaryOp(op, x) => leaf(NodeV::UOperation(op)) + expr_walk(*x),
            ExprV::Var(n) => leaf(NodeV::Name(n)),
            ExprV::CallName(c, args) => leaf(NodeV::Name(c)) + exprs_walk(args),
            ExprV::CallRef(_, args) => exprs_walk(args),
            ExprV::Array(es) => exprs_walk(es),
            ExprV::Index(_, i) => expr_walk(*i),
        },
    )
}

/// The visits of expressions taken one after the other.
pub open spec fn exprs_walk(es: Seq<ExprV>) -> Seq<Visit>
    decreases es, 1nat,
{
    if es.len() == 0 {
        Seq::empty()
    } else {
        exprs_walk(es.drop_last()) + expr_walk(es.last())
    }
}

pub open spec fn opt_expr_walk(e: Option<Box<ExprV>>) -> Seq<Visit> {
    match e {
        Some(x) => expr_walk(*x),
        None => Seq::empty(),
    }
}

/// The visits of a statement, in the order a walk makes them. A declaration shows only
/// its name.
pub open spec fn stmt_walk(s: StmtV) -> Seq<Visit>
    decreases s, 0nat,
{
    around(
        NodeV::Stmt(s),
        match s {
            StmtV::ForD(init, cond, upd, body) => opt_expr_walk(init) + expr_walk(*cond)
                + stmt_walk(*body) + opt_expr_walk(upd),
            StmtV::While(cond, body) => expr_walk(*cond) + stmt_walk(*body),
            StmtV::If(cond, t, f) => expr_walk(*cond) + stmt_walk(*t) + match f {
                Some(x) => stmt_walk(*x),
                None => Seq::empty(),
            },
            StmtV::Assign(l, r) => expr_walk(*l) + expr_walk(*r),
            StmtV::ExprStmt(e) => expr_walk(*e),
            StmtV::Decl(_, name, _) => leaf(NodeV::Name(name)),
            StmtV::Return(e) => expr_walk(*e),
            StmtV::Block(ss) => stmts_walk(ss),
            StmtV::Continue => Seq::empty(),
            StmtV::Break => Seq::empty(),
        },
    )
}

pub open spec fn stmts_walk(ss: Seq<StmtV>) -> Seq<Visit>
    decreases ss, 1nat,
{
    if ss.len() == 0 {
        Seq::empty()
    } else {
        stmts_walk(ss.drop_last()) + stmt_walk(ss.last())
    }
}

pub open spec fn arguments_walk(args: Seq<ExprV>) -> Seq<Visit> {
    around(NodeV::Arguments(args), exprs_walk(args))
}

/// The visits of parameters: each one's type, then its name.
pub open spec fn params_walk(ps: Seq<ParamV>) -> Seq<Visit>
    decreases ps.len(),
{
    if ps.len() == 0 {
        Seq::empty()
    } else {
        params_walk(ps.drop_last()) + type_walk(ps.last().typ) + leaf(NodeV::Name(ps.last().name))
    }
}

pub open spec fn param_list_walk(ps: Seq<ParamV>) -> Seq<Visit> {
    around(NodeV::ParamList(ps), params_walk(ps))
}

/// The visits of a function: its type, name, parameters and body.
pub open spec fn fun_walk(f: FunV) -> Seq<Visit> {
    around(
        NodeV::Fun(f),
        type_walk(f.typ) + leaf(NodeV::Name(f.name)) + param_list_walk(f.params) + stmt_walk(
            f.body,
        ),
    )
}

pub open spec fn funs_walk(fs: Seq<FunV>) -> Seq<Visit>
    decreases fs.len(),
{
    if fs.len() == 0 {
        Seq::empty()
    } else {
        funs_walk(fs.drop_last()) + fun_walk(fs.last())
    }
}

/// The visits of a program: its functions in the order of their names.
pub open spec fn program_walk(fs: Seq<FunV>) -> Seq<Visit> {
    around(NodeV::Program(fs), funs_walk(fs))
}

/// What a visitor holds after the visits `evs`, starting from `s`.
pub open spec fn run<V: Visitor>(s: V::V, evs: Seq<Visit>) -> V::V
    decreases evs.len(),
{
    if evs.len() == 0 {
        s
    } else {
        V::step(run::<V>(s, evs.drop_last()), evs.last())
    }
}

/// Visits taken in two parts give what they give taken at once.
pub proof fn lemma_run_append<V: Visitor>(s: V::V, a: Seq<Visit>, b: Seq<Visit>)
    ensures
        run::<V>(s, a + b) == run::<V>(run::<V>(s, a), b),
    decreases b.len(),
{
    if b.len() == 0 {
        assert(a + b =~= a);
    } else {
        lemma_run_append::<V>(s, a, b.drop_last());
        assert((a + b).drop_last() =~= a + b.drop_last());
    }
}

/// A visitor is called before and after each node of a walk. What it holds after a call
/// is given by `step` from what it held before and the node.
pub trait Visitor: View + Sized {
    spec fn step(s: Self::V, ev: Visit) -> Self::V;

    fn previsit_name(&mut self, node: &Name)
        ensures
            final(self)@ == Self::step(old(self)@, Visit::Pre(NodeV::Name(node@))),
    ;

    fn previsit_value(&mut self, node: &Value)
        ensures
            final(self)@ == Self::step(old(self)@, Visit::Pre(NodeV::Value(*node))),
    ;

    fn previsit_operation(&mut self, node: &Operation)
        ensures
            final(self)@ == Self::step(old(self)@, Visit::Pre(NodeV::Operation(*node))),
    ;

    fn previsit_uoperation(&mut self, node: &UOperation)
        ensures
            final(self)@ == Self::step(old(self)@, Visit::Pre(NodeV::UOperation(*node))),
    ;

    fn previsit_expr(&mut self, node: &Expr)
        ensures
            final(self)@ == Self::step(old(self)@, Visit::Pre(NodeV::Expr(node@))),
    ;

    fn previsit_type(&mut self, node: &Type)
        ensures
            final(self)@ == Self::step(old(self)@, Visit::Pre(NodeV::Type(*node))),
    ;

    fn previsit_stmt(&mut self, node: &Stmt)
        ensures
            final(self)@ == Self::step(old(self)@, Visit::Pre(NodeV::Stmt(node@))),
    ;

    fn previsit_arguments(&mut self, node: &Arguments)
        ensures
            final(self)@ == Self::step(
                old(self)@,
                Visit::Pre(NodeV::Arguments(exprs_view(node.args@))),
            ),
    ;

    fn previsit_paramlist(&mut self, node: &ParamList)
        ensures
            final(self)@ == Self::step(
                old(self)@,
                Visit::Pre(NodeV::ParamList(params_view(node.params@))),
            ),
    ;

    fn previsit_fun(&mut self, node: &Fun)
        ensures
            final(self)@ == Self::step(old(self)@, Visit::Pre(NodeV::Fun(node@))),
    ;

    fn previsit_program(&mut self, node: &Program)
        ensures
            final(self)@ == Self::step(old(self)@, Visit::Pre(NodeV::Program(node@))),
    ;

    fn postvisit_name(&mut self, node: &Name)
        ensures
            final(self)@ == Self::step(old(self)@, Visit::Post(NodeV::Name(node@))),
    ;

    fn postvisit_value(&mut self, node: &Value)
        ensures
            final(self)@ == Self::step(old(self)@, Visit::Post(NodeV::Value(*node))),
    ;

    fn postvisit_operation(&mut self, node: &Operation)
        ensures
            final(self)@ == Self::step(old(self)@, Visit::Post(NodeV::Operation(*node))),
    ;

    fn postvisit_uoperation(&mut self, node: &UOperation)
        ensures
            final(self)@ == Self::step(old(self)@, Visit::Post(NodeV::UOperation(*node))),
    ;

    fn postvisit_expr(&mut self, node: &Expr)
        ensures
            final(self)@ == Self::step(old(self)@, Visit::Post(NodeV::Expr(node@))),
    ;

    fn postvisit_type(&mut self, node: &Type)
        ensures
            final(self)@ == Self::step(old(self)@, Visit::Post(NodeV::Type(*node))),
    ;

    fn postvisit_stmt(&mut self, node: &Stmt)
        ensures
            final(self)@ == Self::step(old(self)@, Visit::Post(NodeV::Stmt(node@))),
    ;

    fn postvisit_arguments(&mut self, node: &Arguments)
        ensures
            final(self)@ == Self::step(
                old(self)@,
                Visit::Post(NodeV::Arguments(exprs_view(node.args@))),
            ),
    ;

    fn postvisit_paramlist(&mut self, node: &ParamList)
        ensures
            final(self)@ == Self::step(
                old(self)@,
                Visit::Post(NodeV::ParamList(params_view(node.params@))),
            ),
    ;

    fn postvisit_fun(&mut self, node: &Fun)
        ensures
            final(self)@ == Self::step(old(self)@, Visit::Post(NodeV::Fun(node@))),
    ;

    fn postvisit_program(&mut self, node: &Program)
        ensures
            final(self)@ == Self::step(old(self)@, Visit::Post(NodeV::Program(node@))),
    ;
}

/// A part of the tree that a visitor can walk.
pub trait Traverse {
    fn traverse<V: Visitor>(&self, v: &mut V);
}

/// The visits of a node, told apart into the call before, those of the children, and the
/// call after.
pub proof fn lemma_around<V: Visitor>(s0: V::V, n: NodeV, inner: Seq<Visit>)
    ensures
        run::<V>(s0, around(n, inner)) == V::step(
            run::<V>(V::step(s0, Visit::Pre(n)), inner),
            Visit::Post(n),
        ),
{
    let pre = seq![Visit::Pre(n)];
    assert(around(n, inner).drop_last() =~= pre + inner);
    assert(around(n, inner).last() == Visit::Post(n));
    lemma_run_append::<V>(s0, pre, inner);
    assert(pre.drop_last() =~= Seq::<Visit>::empty());
    assert(run::<V>(s0, Seq::<Visit>::empty()) == s0);
    assert(pre.last() == Visit::Pre(n));
}

fn walk_name<V: Visitor>(n: &Name, v: &mut V)
    ensures
        final(v)@ == run::<V>(old(v)@, leaf(NodeV::Name(n@))),
{
    proof {
        lemma_around::<V>(v@, NodeV::Name(n@), Seq::empty());
    }
    v.previsit_name(n);
    v.postvisit_name(n);
}

fn walk_value<V: Visitor>(n: &Value, v: &mut V)
    ensures
        final(v)@ == run::<V>(old(v)@, leaf(NodeV::Value(*n))),
{
    proof {
        lemma_around::<V>(v@, NodeV::Value(*n), Seq::empty());
    }
    v.previsit_value(n);
    v.postvisit_value(n);
}

fn walk_operation<V: Visitor>(n: &Operation, v: &mut V)
    ensures
        final(v)@ == run::<V>(old(v)@, leaf(NodeV::Operation(*n))),
{
    proof {
        lemma_around::<V>(v@, NodeV::Operation(*n), Seq::empty());
    }
    v.previsit_operation(n);
    v.postvisit_operation(n);
}

fn walk_uoperation<V: Visitor>(n: &UOperation, v: &mut V)
    ensures
        final(v)@ == run::<V>(old(v)@, leaf(NodeV::UOperation(*n))),
{
    proof {
        lemma_around::<V>(v@, NodeV::UOperation(*n), Seq::empty());
    }
    v.previsit_uoperation(n);
    v.postvisit_uoperation(n);
}

/// The type of the elements of an array type.
pub open spec fn element_type(t: Type) -> Type {
    match t {
        Type::ArrayT(x) => *x,
        _ => t,
    }
}

spec fn type_children_walk(t: Type) -> Seq<Visit> {
    match t {
        Type::ArrayT(x) => type_walk(*x),
        _ => Seq::empty(),
    }
}

fn walk_type<V: Visitor>(t: &Type, v: &mut V)
    ensures
        final(v)@ == run::<V>(old(v)@, type_walk(*t)),
    decreases t,
{
    let ghost inner = type_children_walk(*t);
    proof {
        lemma_around::<V>(v@, NodeV::Type(*t), inner);
    }
    v.previsit_type(t);
    match t {
        Type::ArrayT(x) => walk_type(x, v),
        _ => {
            assert(run::<V>(v@, inner) == v@);
        },
    }
    v.postvisit_type(t);
}

fn walk_expr<V: Visitor>(e: &Expr, v: &mut V)
    ensures
        final(v)@ == run::<V>(old(v)@, expr_walk(e@)),
    decreases e, 0nat,
{
    let ghost inner = match e@ {
        ExprV::Val(x) => leaf(NodeV::Value(x)),
        ExprV::BinaryOp(l, op, r) => expr_walk(*l) + leaf(NodeV::Operation(op)) + expr_walk(*r),
        ExprV::UnaryOp(op, x) => leaf(NodeV::UOperation(op)) + expr_walk(*x),
        ExprV::Var(n) => leaf(NodeV::Name(n)),
        ExprV::CallName(c, args) => leaf(NodeV::Name(c)) + exprs_walk(args),
        ExprV::CallRef(_, args) => exprs_walk(args),
        ExprV::Array(es) => exprs_walk(es),
        ExprV::Index(_, i) => expr_walk(*i),
    };
    proof {
        lemma_around::<V>(v@, NodeV::Expr(e@), inner);
    }
    v.previsit_expr(e);
    let ghost s1 = v@;
    match e {
        Expr::Val { value } => walk_value(value, v),
        Expr::BinaryOp { lhs, op, rhs } => {
            walk_expr(lhs, v);
            walk_operation(op, v);
            walk_expr(rhs, v);
            proof {
                let a = expr_walk((**lhs)@);
                let b = leaf(NodeV::Operation(*op));
                let c = expr_walk((**rhs)@);
                lemma_run_append::<V>(s1, a, b);
                lemma_run_append::<V>(s1, a + b, c);
            }
        },
        Expr::UnaryOp { op, expr } => {
            walk_uoperation(op, v);
            walk_expr(expr, v);
            proof {
                lemma_run_append::<V>(s1, leaf(NodeV::UOperation(*op)), expr_walk((**expr)@));
            }
        },
        Expr::Var { name } => walk_name(name, v),
        Expr::CallName { callee, args } => {
            walk_name(callee, v);
            walk_exprs(&args.args, v);
            proof {
                lemma_run_append::<V>(
                    s1,
                    leaf(NodeV::Name(callee@)),
                    exprs_walk(exprs_view(args.args@)),
                );
            }
        },
        Expr::CallRef { fun: _, args } => walk_exprs(&args.args, v),
        Expr::Array { elements } => walk_exprs(elements, v),
        Expr::Index { array: _, index } => walk_expr(index, v),
    }
    v.postvisit_expr(e);
}

fn walk_exprs<V: Visitor>(es: &Vec<Rc<Expr>>, v: &mut V)
    ensures
        final(v)@ == run::<V>(old(v)@, exprs_walk(exprs_view(es@))),
    decreases es, 1nat,
{
    let ghost s0 = v@;
    let ghost x = exprs_view(es@);
    proof {
        lemma_exprs_view(es@);
        assert(x.take(0) =~= Seq::<ExprV>::empty());
    }
    let mut i: usize = 0;
    while i < es.len()
        invariant
            i <= es.len(),
            x == exprs_view(es@),
            x.len() == es@.len(),
            forall|k: int| 0 <= k < es@.len() ==> #[trigger] x[k] == (*es@[k])@,
            v@ == run::<V>(s0, exprs_walk(x.take(i as int))),
        decreases es.len() - i,
    {
        proof {
            assert(decreases_to!(es => es@));
            assert(decreases_to!(es@ => es@[i as int]));
        }
        let ghost before = v@;
        walk_expr(&es[i], v);
        proof {
            assert(x.take(i + 1).drop_last() =~= x.take(i as int));
            assert(x.take(i + 1).last() == x[i as int]);
            lemma_run_append::<V>(s0, exprs_walk(x.take(i as int)), expr_walk(x[i as int]));
        }
        i = i + 1;
    }
    proof {
        assert(x.take(es.len() as int) =~= x);
    }
}

fn walk_opt_expr<V: Visitor>(e: &Option<Rc<Expr>>, v: &mut V)
    ensures
        final(v)@ == run::<V>(
            old(v)@,
            match e {
                Some(x) => expr_walk((**x)@),
                None => Seq::empty(),
            },
        ),
{
    match e {
        Some(x) => walk_expr(x, v),
        None => {},
    }
}

#[verifier::loop_isolation(false)]
fn walk_stmt<V: Visitor>(st: &Stmt, v: &mut V)
    ensures
        final(v)@ == run::<V>(old(v)@, stmt_walk(st@)),
    decreases st,
{
    let ghost inner = match st@ {
        StmtV::ForD(init, cond, upd, body) => opt_expr_walk(init) + expr_walk(*cond) + stmt_walk(
            *body,
        ) + opt_expr_walk(upd),
        StmtV::While(cond, body) => expr_walk(*cond) + stmt_walk(*body),
        StmtV::If(cond, t, f) => expr_walk(*cond) + stmt_walk(*t) + match f {
            Some(x) => stmt_walk(*x),
            None => Seq::empty(),
        },
        StmtV::Assign(l, r) => expr_walk(*l) + expr_walk(*r),
        StmtV::ExprStmt(e) => expr_walk(*e),
        StmtV::Decl(_, name, _) => leaf(NodeV::Name(name)),
        StmtV::Return(e) => expr_walk(*e),
        StmtV::Block(ss) => stmts_walk(ss),
        StmtV::Continue => Seq::empty(),
        StmtV::Break => Seq::empty(),
    };
    proof {
        lemma_around::<V>(v@, NodeV::Stmt(st@), inner);
    }
    v.previsit_stmt(st);
    let ghost s1 = v@;
    match st {
        Stmt::ForD { init, condition, update, body } => {
            walk_opt_expr(init, v);
            walk_expr(condition, v);
            walk_stmt(body, v);
            walk_opt_expr(update, v);
            proof {
                let a = match init {
                    Some(x) => expr_walk((*x)@),
                    None => Seq::<Visit>::empty(),
                };
                let b = expr_walk((**condition)@);
                let c = stmt_walk((**body)@);
                let d = match update {
                    Some(x) => expr_walk((*x)@),
                    None => Seq::<Visit>::empty(),
                };
                lemma_run_append::<V>(s1, a, b);
                lemma_run_append::<V>(s1, a + b, c);
                lemma_run_append::<V>(s1, a + b + c, d);
            }
        },
        Stmt::While { condition, body } => {
            walk_expr(condition, v);
            walk_stmt(body, v);
            proof {
                lemma_run_append::<V>(s1, expr_walk((**condition)@), stmt_walk((**body)@));
            }
        },
        Stmt::If { condition, then_branch, else_branch } => {
            walk_expr(condition, v);
            walk_stmt(then_branch, v);
            match else_branch {
                Some(x) => walk_stmt(x, v),
                None => {},
            }
            proof {
                let a = expr_walk((**condition)@);
                let b = stmt_walk((**then_branch)@);
                let c = match else_branch {
                    Some(x) => stmt_walk((*x)@),
                    None => Seq::<Visit>::empty(),
                };
                lemma_run_append::<V>(s1, a, b);
                lemma_run_append::<V>(s1, a + b, c);
            }
        },
        Stmt::Assign { lhs, rhs } => {
            walk_expr(lhs, v);
            walk_expr(rhs, v);
            proof {
                lemma_run_append::<V>(s1, expr_walk((**lhs)@), expr_walk((**rhs)@));
            }
        },
        Stmt::ExprStmt { expr } => walk_expr(expr, v),
        Stmt::Decl { typ: _, name, expr: _ } => walk_name(name, v),
        Stmt::Return { expr } => walk_expr(expr, v),
        Stmt::Block { stmts } => {
            let ghost x = stmts_view(stmts@);
            proof {
                lemma_stmts_view(stmts@);
                assert(x.take(0) =~= Seq::<StmtV>::empty());
            }
            let mut i: usize = 0;
            while i < stmts.len()
                invariant
                    i <= stmts.len(),
                    v@ == run::<V>(s1, stmts_walk(x.take(i as int))),
                decreases stmts.len() - i,
            {
                proof {
                    assert(decreases_to!(stmts@ => stmts@[i as int]));
                }
                walk_stmt(&stmts[i], v);
                proof {
                    assert(x.take(i + 1).drop_last() =~= x.take(i as int));
                    assert(x.take(i + 1).last() == x[i as int]);
                    lemma_run_append::<V>(s1, stmts_walk(x.take(i as int)), stmt_walk(x[i as int]));
                }
                i = i + 1;
            }
            proof {
                assert(x.take(stmts.len() as int) =~= x);
            }
        },
        Stmt::Continue => {},
        Stmt::Break => {},
    }
    v.postvisit_stmt(st);
}

fn walk_arguments<V: Visitor>(args: &Arguments, v: &mut V)
    ensures
        final(v)@ == run::<V>(old(v)@, arguments_walk(exprs_view(args.args@))),
{
    proof {
        lemma_around::<V>(
            v@,
            NodeV::Arguments(exprs_view(args.args@)),
            exprs_walk(exprs_view(args.args@)),
        );
    }
    v.previsit_arguments(args);
    walk_exprs(&args.args, v);
    v.postvisit_arguments(args);
}

fn walk_param_list<V: Visitor>(pl: &ParamList, v: &mut V)
    ensures
        final(v)@ == run::<V>(old(v)@, param_list_walk(params_view(pl.params@))),
{
    let ghost x = params_view(pl.params@);
    proof {
        lemma_around::<V>(v@, NodeV::ParamList(x), params_walk(x));
        assert(x.take(0) =~= Seq::<ParamV>::empty());
    }
    v.previsit_paramlist(pl);
    let ghost s1 = v@;
    let mut i: usize = 0;
    while i < pl.params.len()
        invariant
            i <= pl.params.len(),
            x == params_view(pl.params@),
            v@ == run::<V>(s1, params_walk(x.take(i as int))),
        decreases pl.params.len() - i,
    {
        let p = &pl.params[i];
        walk_type(&p.typ, v);
        walk_name(&p.name, v);
        proof {
            let t = x.take(i + 1);
            assert(t.drop_last() =~= x.take(i as int));
            assert(t.last() == x[i as int]);
            let a = params_walk(x.take(i as int));
            let b = type_walk(x[i as int].typ);
            let c = leaf(NodeV::Name(x[i as int].name));
            lemma_run_append::<V>(s1, a, b);
            lemma_run_append::<V>(s1, a + b, c);
        }
        i = i + 1;
    }
    proof {
        assert(x.take(pl.params.len() as int) =~= x);
    }
    v.postvisit_paramlist(pl);
}

fn walk_fun<V: Visitor>(f: &Fun, v: &mut V)
    ensures
        final(v)@ == run::<V>(old(v)@, fun_walk(f@)),
{
    let ghost fv = f@;
    let ghost a = type_walk(fv.typ);
    let ghost b = leaf(NodeV::Name(fv.name));
    let ghost c = param_list_walk(fv.params);
    let ghost d = stmt_walk(fv.body);
    proof {
        lemma_around::<V>(v@, NodeV::Fun(fv), a + b + c + d);
    }
    v.previsit_fun(f);
    let ghost s1 = v@;
    walk_type(&f.typ, v);
    walk_name(&f.name, v);
    walk_param_list(&f.params, v);
    walk_stmt(&f.body, v);
    proof {
        lemma_run_append::<V>(s1, a, b);
        lemma_run_append::<V>(s1, a + b, c);
        lemma_run_append::<V>(s1, a + b + c, d);
    }
    v.postvisit_fun(f);
}

fn walk_program<V: Visitor>(prog: &Program, v: &mut V)
    ensures
        final(v)@ == run::<V>(old(v)@, program_walk(prog@)),
{
    let ghost x = prog@;
    proof {
        lemma_around::<V>(v@, NodeV::Program(x), funs_walk(x));
        assert(x.take(0) =~= Seq::<FunV>::empty());
    }
    v.previsit_program(prog);
    let ghost s1 = v@;
    let mut i: usize = 0;
    while i < prog.funs.len()
        invariant
            i <= prog.funs.len(),
            x == prog@,
            v@ == run::<V>(s1, funs_walk(x.take(i as int))),
        decreases prog.funs.len() - i,
    {
        walk_fun(&prog.funs[i], v);
        proof {
            assert(x.take(i + 1).drop_last() =~= x.take(i as int));
            assert(x.take(i + 1).last() == x[i as int]);
            lemma_run_append::<V>(s1, funs_walk(x.take(i as int)), fun_walk(x[i as int]));
        }
        i = i + 1;
    }
    proof {
        assert(x.take(prog.funs.len() as int) =~= x);
    }
    v.postvisit_program(prog);
}

impl Traverse for Name {
    fn traverse<V: Visitor>(&self, v: &mut V)
        ensures
            final(v)@ == run::<V>(old(v)@, leaf(NodeV::Name(self@))),
    {
        walk_name(self, v)
    }
}

impl Traverse for Value {
    fn traverse<V: Visitor>(&self, v: &mut V)
        ensures
            final(v)@ == run::<V>(old(v)@, leaf(NodeV::Value(*self))),
    {
        walk_value(self, v)
    }
}

impl Traverse for Operation {
    fn traverse<V: Visitor>(&self, v: &mut V)
        ensures
            final(v)@ == run::<V>(old(v)@, leaf(NodeV::Operation(*self))),
    {
        walk_operation(self, v)
    }
}

impl Traverse for UOperation {
    fn traverse<V: Visitor>(&self, v: &mut V)
        ensures
            final(v)@ == run::<V>(old(v)@, leaf(NodeV::UOperation(*self))),
    {
        walk_uoperation(self, v)
    }
}

impl Traverse for Expr {
    fn traverse<V: Visitor>(&self, v: &mut V)
        ensures
            final(v)@ == run::<V>(old(v)@, expr_walk(self@)),
    {
        walk_expr(self, v)
    }
}

impl Traverse for Type {
    fn traverse<V: Visitor>(&self, v: &mut V)
        ensures
            final(v)@ == run::<V>(old(v)@, type_walk(*self)),
    {
        walk_type(self, v)
    }
}

impl Traverse for Stmt {
    fn traverse<V: Visitor>(&self, v: &mut V)
        ensures
            final(v)@ == run::<V>(old(v)@, stmt_walk(self@)),
    {
        walk_stmt(self, v)
    }
}

impl Traverse for Arguments {
    fn traverse<V: Visitor>(&self, v: &mut V)
        ensures
            final(v)@ == run::<V>(old(v)@, arguments_walk(exprs_view(self.args@))),
    {
        walk_arguments(self, v)
    }
}

impl Traverse for ParamList {
    fn traverse<V: Visitor>(&self, v: &mut V)
        ensures
            final(v)@ == run::<V>(old(v)@, param_list_walk(params_view(self.params@))),
    {
        walk_param_list(self, v)
    }
}

impl Traverse for Fun {
    fn traverse<V: Visitor>(&self, v: &mut V)
        ensures
            final(v)@ == run::<V>(old(v)@, fun_walk(self@)),
    {
        walk_fun(self, v)
    }
}

impl Traverse for Program {
    fn traverse<V: Visitor>(&self, v: &mut V)
        ensures
            final(v)@ == run::<V>(old(v)@, program_walk(self@)),
    {
        walk_program(self, v)
    }
}

} // verus!
