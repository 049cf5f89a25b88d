use crate::ast::ast::{
    Arguments, Expr, Fun, Name, Operation, ParamList, Program, Stmt, Type, UOperation, Value,
};
use crate::ast::methods::rc_clone;
use crate::ast::view::{
    lemma_stmts_view, opt_expr_view, stmt_view, stmts_view, ExprV, FunV, ParamV, StmtV,
};
use crate::visit::visit::{
    around, expr_walk, exprs_walk, fun_walk, funs_walk, lemma_around, lemma_run_append, leaf,
    opt_expr_walk, param_list_walk, params_walk, program_walk, run, stmt_walk, stmts_walk, type_walk,
    NodeV, Traverse, Visit, Visitor, element_type,
};
use std::rc::Rc;
use vstd::prelude::*;

verus! {

/// Each statement of a block paired with the one after it, in order.
pub open spec fn consecutive(ss: Seq<StmtV>) -> Seq<(StmtV, StmtV)> {
    if ss.len() == 0 {
        Seq::empty()
    } else {
        Seq::new((ss.len() - 1) as nat, |i: int| (ss[i], ss[i + 1]))
    }
}

/// The body of the `while` loop a `for` loop stands for: the `for` body followed by the
/// update, where there is one.
pub open spec fn for_body(body: StmtV, update: Option<Box<ExprV>>) -> StmtV {
    match update {
        Some(u) => StmtV::Block(seq![body, StmtV::ExprStmt(u)]),
        None => body,
    }
}

/// The statements a `for` loop stands for, run in its place: `init;` where there is one,
/// then `while (cond)` over `for_body`. So `for` is `init; while (cond) { body; update }`.
pub open spec fn for_head(
    init: Option<Box<ExprV>>,
    cond: ExprV,
    update: Option<Box<ExprV>>,
    body: StmtV,
) -> Seq<StmtV> {
    let w = StmtV::While(Box::new(cond), Box::new(for_body(body, update)));
    match init {
        Some(i) => seq![StmtV::ExprStmt(i), w],
        None => seq![w],
    }
}

/// The successor pairs of the blocks a `for` loop stands for.
pub open spec fn for_pairs(
    init: Option<Box<ExprV>>,
    cond: ExprV,
    update: Option<Box<ExprV>>,
    body: StmtV,
) -> Seq<(StmtV, StmtV)> {
    consecutive(for_head(init, cond, update, body)) + match update {
        Some(u) => consecutive(seq![body, StmtV::ExprStmt(u)]),
        None => Seq::empty(),
    }
}

/// The successor pairs of a statement, as a pre-order walk records them: a block's own
/// pairs (those of the blocks a `for` loop stands for), then those of the statements
/// nested in it, in order.
pub open spec fn stmt_pairs(s: StmtV) -> Seq<(StmtV, StmtV)>
    decreases s, 0nat,
{
    match s {
        StmtV::Block(ss) => consecutive(ss) + stmts_pairs(ss),
        StmtV::ForD(init, cond, upd, body) => for_pairs(init, *cond, upd, *body) + stmt_pairs(
            *body,
        ),
        StmtV::While(_, body) => stmt_pairs(*body),
        StmtV::If(_, t, e) => stmt_pairs(*t) + match e {
            Some(x) => stmt_pairs(*x),
            None => Seq::empty(),
        },
        _ => Seq::empty(),
    }
}

pub open spec fn stmts_pairs(ss: Seq<StmtV>) -> Seq<(StmtV, StmtV)>
    decreases ss, 1nat,
{
    if ss.len() == 0 {
        Seq::empty()
    } else {
        stmts_pairs(ss.drop_last()) + stmt_pairs(ss.last())
    }
}

/// The successor pairs of all function bodies, the functions taken in order.
pub open spec fn program_pairs(funs: Seq<FunV>) -> Seq<(StmtV, StmtV)>
    decreases funs.len(),
{
    if funs.len() == 0 {
        Seq::empty()
    } else {
        program_pairs(funs.drop_last()) + stmt_pairs(funs.last().body)
    }
}

/// The successor recorded last for `key`.
pub open spec fn lookup_pair(pairs: Seq<(StmtV, StmtV)>, key: StmtV) -> Option<StmtV>
    decreases pairs.len(),
{
    if pairs.len() == 0 {
        None
    } else if pairs.last().0 == key {
        Some(pairs.last().1)
    } else {
        lookup_pair(pairs.drop_last(), key)
    }
}

pub open spec fn pairs_view(s: Seq<(Rc<Stmt>, Rc<Stmt>)>) -> Seq<(StmtV, StmtV)> {
    s.map_values(|p: (Rc<Stmt>, Rc<Stmt>)| (p.0@, p.1@))
}

/// The statements a `for` loop stands for; see `for_head`.
pub fn for_head_exec(
    init: &Option<Rc<Expr>>,
    cond: &Rc<Expr>,
    update: &Option<Rc<Expr>>,
    body: &Rc<Stmt>,
) -> (r: Vec<Rc<Stmt>>)
    ensures
        stmts_view(r@) == for_head(opt_expr_view(*init), (**cond)@, opt_expr_view(*update), (**body)@),
{
    let looped = match update {
        Some(u) => {
            let v = vec![rc_clone(body), Rc::new(Stmt::ExprStmt { expr: rc_clone(u) })];
            proof {
                lemma_stmts_view(v@);
                assert(stmts_view(v@) =~= seq![(**body)@, StmtV::ExprStmt(Box::new((**u)@))]);
            }
            Rc::new(Stmt::Block { stmts: v })
        },
        None => rc_clone(body),
    };
    assert((*looped)@ == for_body((**body)@, opt_expr_view(*update)));
    let w = Rc::new(Stmt::While { condition: rc_clone(cond), body: looped });
    let v = match init {
        Some(i) => vec![Rc::new(Stmt::ExprStmt { expr: rc_clone(i) }), w],
        None => vec![w],
    };
    proof {
        lemma_stmts_view(v@);
        assert(stmts_view(v@) =~= for_head(
            opt_expr_view(*init),
            (**cond)@,
            opt_expr_view(*update),
            (**body)@,
        ));
    }
    v
}

/// Statements paired with the statement that follows each of them.
#[derive(Debug)]
pub struct SuccessorMap {
    pairs: Vec<(Rc<Stmt>, Rc<Stmt>)>,
}

impl View for SuccessorMap {
    type V = Seq<(StmtV, StmtV)>;

    closed spec fn view(&self) -> Seq<(StmtV, StmtV)> {
        pairs_view(self.pairs@)
    }
}

impl SuccessorMap {
    pub fn new() -> (r: Self)
        ensures
            r@ == Seq::<(StmtV, StmtV)>::empty(),
    {
        let r = SuccessorMap { pairs: Vec::new() };
        assert(r@ =~= Seq::<(StmtV, StmtV)>::empty());
        r
    }

    /// Records that `next` follows `current`, overriding what was recorded for it.
    pub fn insert(&mut self, current: Rc<Stmt>, next: Rc<Stmt>)
        ensures
            final(self)@ == old(self)@.push((current@, next@)),
    {
        self.pairs.push((current, next));
        assert(self@ =~= old(self)@.push((current@, next@)));
    }

    /// The statement recorded last as following `key`.
    pub fn get(&self, key: &Stmt) -> (r: Option<Rc<Stmt>>)
        ensures
            match r {
                Some(s) => lookup_pair(self@, key@) == Some(s@),
                None => lookup_pair(self@, key@) is None,
            },
    {
        let mut k = self.pairs.len();
        assert(self@.take(k as int) =~= self@);
        while k > 0
            invariant
                k <= self.pairs.len(),
                lookup_pair(self@, key@) == lookup_pair(self@.take(k as int), key@),
            decreases k,
        {
            assert(self@.take(k as int).last() == self@[k - 1]);
            if (*self.pairs[k - 1].0).same(key) {
                return Some(rc_clone(&self.pairs[k - 1].1));
            }
            assert(self@.take(k as int).drop_last() =~= self@.take(k - 1));
            k = k - 1;
        }
        None
    }
}

/// Records, for every statement of a block, the statement that follows it.
#[derive(Debug)]
pub struct SuccessorVisitor {
    pub map: SuccessorMap,
}

impl View for SuccessorVisitor {
    type V = Seq<(StmtV, StmtV)>;

    open spec fn view(&self) -> Seq<(StmtV, StmtV)> {
        self.map@
    }
}

impl SuccessorVisitor {
    pub fn new() -> (r: Self)
        ensures
            r@ == Seq::<(StmtV, StmtV)>::empty(),
    {
        Self { map: SuccessorMap::new() }
    }

    /// The successor pairs of `start` and the statements nested in it.
    pub fn create(start: &Stmt) -> (r: SuccessorMap)
        ensures
            r@ == stmt_pairs(start@),
    {
        let mut sv = SuccessorVisitor::new();
        start.traverse(&mut sv);
        proof {
            lemma_stmt_walk_pairs(Seq::empty(), start@);
            assert(sv@ =~= stmt_pairs(start@));
        }
        let SuccessorVisitor { map } = sv;
        map
    }

    /// Records each statement of a block with the statement after it.
    fn record_block(&mut self, stmts: &Vec<Rc<Stmt>>)
        ensures
            final(self)@ == old(self)@ + consecutive(stmts_view(stmts@)),
    {
        let ghost v = stmts_view(stmts@);
        let ghost m0 = self.map@;
        proof {
            lemma_stmts_view(stmts@);
        }
        let n = stmts.len();
        let mut i: usize = 0;
        assert(consecutive(v).take(0) =~= Seq::<(StmtV, StmtV)>::empty());
        while i + 1 < n
            invariant
                n == stmts.len(),
                v == stmts_view(stmts@),
                v.len() == n,
                forall|k: int| 0 <= k < n ==> #[trigger] v[k] == stmt_view(*stmts@[k]),
                i <= n,
                n > 0 ==> i < n,
                self.map@ == m0 + consecutive(v).take(i as int),
            decreases n - i,
        {
            self.map.insert(rc_clone(&stmts[i]), rc_clone(&stmts[i + 1]));
            assert(consecutive(v).take(i + 1) =~= consecutive(v).take(i as int).push(
                (v[i as int], v[i + 1]),
            ));
            i = i + 1;
        }
        assert(consecutive(v).take(i as int) =~= consecutive(v));
    }
}

impl Visitor for SuccessorVisitor {
    /// Only the start of a block records anything: the pairs of its statements; the start
    /// of a `for` loop records those of the blocks it stands for.
    open spec fn step(s: Seq<(StmtV, StmtV)>, ev: Visit) -> Seq<(StmtV, StmtV)> {
        match ev {
            Visit::Pre(NodeV::Stmt(StmtV::Block(ss))) => s + consecutive(ss),
            Visit::Pre(NodeV::Stmt(StmtV::ForD(i, c, u, b))) => s + for_pairs(i, *c, u, *b),
            _ => s,
        }
    }

    fn previsit_name(&mut self, node: &Name) {
    }

    fn previsit_value(&mut self, node: &Value) {
    }

    fn previsit_operation(&mut self, node: &Operation) {
    }

    fn previsit_uoperation(&mut self, node: &UOperation) {
    }

    fn previsit_expr(&mut self, node: &Expr) {
    }

    fn previsit_type(&mut self, node: &Type) {
    }

    fn previsit_stmt(&mut self, node: &Stmt) {
        match node {
            Stmt::Block { stmts } => self.record_block(stmts),
            Stmt::ForD { init, condition, update, body } => {
                let ghost m0 = self@;
                let head = for_head_exec(init, condition, update, body);
                self.record_block(&head);
                match update {
                    Some(u) => {
                        let inner = vec![rc_clone(body), Rc::new(Stmt::ExprStmt { expr: rc_clone(u) })];
                        proof {
                            lemma_stmts_view(inner@);
                            assert(stmts_view(inner@) =~= seq![(**body)@, StmtV::ExprStmt(Box::new((**u)@))]);
                        }
                        self.record_block(&inner);
                    },
                    None => {},
                }
                assert(self@ =~= m0 + for_pairs(opt_expr_view(*init), (**condition)@, opt_expr_view(*update), (**body)@));
            },
            _ => {},
        }
    }

    fn previsit_arguments(&mut self, node: &Arguments) {
    }

    fn previsit_paramlist(&mut self, node: &ParamList) {
    }

    fn previsit_fun(&mut self, node: &Fun) {
    }

    fn previsit_program(&mut self, node: &Program) {
    }

    fn postvisit_name(&mut self, node: &Name) {
    }

    fn postvisit_value(&mut self, node: &Value) {
    }

    fn postvisit_operation(&mut self, node: &Operation) {
    }

    fn postvisit_uoperation(&mut self, node: &UOperation) {
    }

    fn postvisit_expr(&mut self, node: &Expr) {
    }

    fn postvisit_type(&mut self, node: &Type) {
    }

    fn postvisit_stmt(&mut self, node: &Stmt) {
    }

    fn postvisit_arguments(&mut self, node: &Arguments) {
    }

    fn postvisit_paramlist(&mut self, node: &ParamList) {
    }

    fn postvisit_fun(&mut self, node: &Fun) {
    }

    fn postvisit_program(&mut self, node: &Program) {
    }
}

/// The visits of a node other than a block or a `for` loop leave the pairs as they are.
proof fn lemma_around_keeps(s: Seq<(StmtV, StmtV)>, n: NodeV, inner: Seq<Visit>)
    requires
        !(n matches NodeV::Stmt(StmtV::Block(_))),
        !(n matches NodeV::Stmt(StmtV::ForD(_, _, _, _))),
    ensures
        run::<SuccessorVisitor>(s, around(n, inner)) == run::<SuccessorVisitor>(s, inner),
{
    lemma_around::<SuccessorVisitor>(s, n, inner);
}

proof fn lemma_type_walk_keeps(s: Seq<(StmtV, StmtV)>, t: Type)
    ensures
        run::<SuccessorVisitor>(s, type_walk(t)) == s,
    decreases t,
{
    if t is ArrayT {
        let x = element_type(t);
        assert(decreases_to!(t => x));
        lemma_type_walk_keeps(s, x);
        lemma_around_keeps(s, NodeV::Type(t), type_walk(x));
    } else {
        lemma_around_keeps(s, NodeV::Type(t), Seq::empty());
    }
}

proof fn lemma_leaf_keeps(s: Seq<(StmtV, StmtV)>, n: NodeV)
    requires
        !(n matches NodeV::Stmt(StmtV::Block(_))),
        !(n matches NodeV::Stmt(StmtV::ForD(_, _, _, _))),
    ensures
        run::<SuccessorVisitor>(s, leaf(n)) == s,
{
    lemma_around_keeps(s, n, Seq::empty());
}

proof fn lemma_expr_walk_keeps(s: Seq<(StmtV, StmtV)>, e: ExprV)
    ensures
        run::<SuccessorVisitor>(s, expr_walk(e)) == s,
    decreases e, 0nat,
{
    let inner = match e {
        ExprV::Val(v) => leaf(NodeV::Value(v)),
        ExprV::BinaryOp(l, op, r) => expr_walk(*l) + leaf(NodeV::Operation(op)) + expr_walk(*r),
        ExprV::UnaryOp(op, x) => leaf(NodeV::UOperation(op)) + expr_walk(*x),
        ExprV::Var(n) => leaf(NodeV::Name(n)),
        ExprV::CallName(c, args) => leaf(NodeV::Name(c)) + exprs_walk(args),
        ExprV::CallRef(_, args) => exprs_walk(args),
        ExprV::Array(es) => exprs_walk(es),
        ExprV::Index(_, i) => expr_walk(*i),
    };
    lemma_around_keeps(s, NodeV::Expr(e), inner);
    match e {
        ExprV::Val(v) => lemma_leaf_keeps(s, NodeV::Value(v)),
        ExprV::BinaryOp(l, op, r) => {
            lemma_expr_walk_keeps(s, *l);
            lemma_leaf_keeps(s, NodeV::Operation(op));
            lemma_expr_walk_keeps(s, *r);
            lemma_run_append::<SuccessorVisitor>(s, expr_walk(*l), leaf(NodeV::Operation(op)));
            lemma_run_append::<SuccessorVisitor>(
                s,
                expr_walk(*l) + leaf(NodeV::Operation(op)),
                expr_walk(*r),
            );
        },
        ExprV::UnaryOp(op, x) => {
            lemma_leaf_keeps(s, NodeV::UOperation(op));
            lemma_expr_walk_keeps(s, *x);
            lemma_run_append::<SuccessorVisitor>(s, leaf(NodeV::UOperation(op)), expr_walk(*x));
        },
        ExprV::Var(n) => lemma_leaf_keeps(s, NodeV::Name(n)),
        ExprV::CallName(c, args) => {
            lemma_leaf_keeps(s, NodeV::Name(c));
            lemma_exprs_walk_keeps(s, args);
            lemma_run_append::<SuccessorVisitor>(s, leaf(NodeV::Name(c)), exprs_walk(args));
        },
        ExprV::CallRef(_, args) => lemma_exprs_walk_keeps(s, args),
        ExprV::Array(es) => lemma_exprs_walk_keeps(s, es),
        ExprV::Index(_, i) => lemma_expr_walk_keeps(s, *i),
    }
}

proof fn lemma_exprs_walk_keeps(s: Seq<(StmtV, StmtV)>, es: Seq<ExprV>)
    ensures
        run::<SuccessorVisitor>(s, exprs_walk(es)) == s,
    decreases es, 1nat,
{
    if es.len() > 0 {
        lemma_exprs_walk_keeps(s, es.drop_last());
        lemma_expr_walk_keeps(s, es.last());
        lemma_run_append::<SuccessorVisitor>(s, exprs_walk(es.drop_last()), expr_walk(es.last()));
    }
}

proof fn lemma_opt_expr_walk_keeps(s: Seq<(StmtV, StmtV)>, e: Option<Box<ExprV>>)
    ensures
        run::<SuccessorVisitor>(s, opt_expr_walk(e)) == s,
{
    match e {
        Some(x) => lemma_expr_walk_keeps(s, *x),
        None => {},
    }
}

/// A walk of a statement records its successor pairs.
proof fn lemma_stmt_walk_pairs(s: Seq<(StmtV, StmtV)>, st: StmtV)
    ensures
        run::<SuccessorVisitor>(s, stmt_walk(st)) == s + stmt_pairs(st),
    decreases st, 0nat,
{
    let inner = match st {
        StmtV::ForD(init, cond, upd, body) => opt_expr_walk(init) + expr_walk(*cond) + stmt_walk(
            *body,
        ) + opt_expr_walk(upd),
        StmtV::While(cond, body) => expr_walk(*cond) + stmt_walk(*body),
        StmtV::If(cond, t, f) => expr_walk(*cond) + stmt_walk(*t) + match f {
            Some(x) => stmt_walk(*x),
            None => Seq::empty(),
        },
        StmtV::Assign(l, r) => expr_walk(*l) + expr_walk(*r),
        StmtV::ExprStmt(e) => expr_walk(*e),
        StmtV::Decl(_, name, _) => leaf(NodeV::Name(name)),
        StmtV::Return(e) => expr_walk(*e),
        StmtV::Block(ss) => stmts_walk(ss),
        StmtV::Continue => Seq::empty(),
        StmtV::Break => Seq::empty(),
    };
    lemma_around::<SuccessorVisitor>(s, NodeV::Stmt(st), inner);
    match st {
        StmtV::ForD(init, cond, upd, body) => {
            let s1 = s + for_pairs(init, *cond, upd, *body);
            let a = opt_expr_walk(init);
            let b = expr_walk(*cond);
            let c = stmt_walk(*body);
            let d = opt_expr_walk(upd);
            lemma_opt_expr_walk_keeps(s1, init);
            lemma_expr_walk_keeps(s1, *cond);
            lemma_stmt_walk_pairs(s1, *body);
            lemma_opt_expr_walk_keeps(s1 + stmt_pairs(*body), upd);
            lemma_run_append::<SuccessorVisitor>(s1, a, b);
            lemma_run_append::<SuccessorVisitor>(s1, a + b, c);
            lemma_run_append::<SuccessorVisitor>(s1, a + b + c, d);
            assert(s1 + stmt_pairs(*body) =~= s + stmt_pairs(st));
        },
        StmtV::While(cond, body) => {
            lemma_expr_walk_keeps(s, *cond);
            lemma_stmt_walk_pairs(s, *body);
            lemma_run_append::<SuccessorVisitor>(s, expr_walk(*cond), stmt_walk(*body));
        },
        StmtV::If(cond, t, f) => {
            let a = expr_walk(*cond);
            let b = stmt_walk(*t);
            let c = match f {
                Some(x) => stmt_walk(*x),
                None => Seq::<Visit>::empty(),
            };
            lemma_expr_walk_keeps(s, *cond);
            lemma_stmt_walk_pairs(s, *t);
            match f {
                Some(x) => lemma_stmt_walk_pairs(s + stmt_pairs(*t), *x),
                None => {},
            }
            lemma_run_append::<SuccessorVisitor>(s, a, b);
            lemma_run_append::<SuccessorVisitor>(s, a + b, c);
        },
        StmtV::Assign(l, r) => {
            lemma_expr_walk_keeps(s, *l);
            lemma_expr_walk_keeps(s, *r);
            lemma_run_append::<SuccessorVisitor>(s, expr_walk(*l), expr_walk(*r));
        },
        StmtV::ExprStmt(e) => lemma_expr_walk_keeps(s, *e),
        StmtV::Decl(_, name, _) => lemma_leaf_keeps(s, NodeV::Name(name)),
        StmtV::Return(e) => lemma_expr_walk_keeps(s, *e),
        StmtV::Block(ss) => {
            lemma_stmts_walk_pairs(s + consecutive(ss), ss);
        },
        _ => {},
    }
}

proof fn lemma_stmts_walk_pairs(s: Seq<(StmtV, StmtV)>, ss: Seq<StmtV>)
    ensures
        run::<SuccessorVisitor>(s, stmts_walk(ss)) == s + stmts_pairs(ss),
    decreases ss, 1nat,
{
    if ss.len() > 0 {
        lemma_stmts_walk_pairs(s, ss.drop_last());
        lemma_stmt_walk_pairs(s + stmts_pairs(ss.drop_last()), ss.last());
        lemma_run_append::<SuccessorVisitor>(s, stmts_walk(ss.drop_last()), stmt_walk(ss.last()));
    } else {
        assert(s + Seq::<(StmtV, StmtV)>::empty() =~= s);
    }
}

proof fn lemma_params_walk_keeps(s: Seq<(StmtV, StmtV)>, ps: Seq<ParamV>)
    ensures
        run::<SuccessorVisitor>(s, params_walk(ps)) == s,
    decreases ps.len(),
{
    if ps.len() > 0 {
        let a = params_walk(ps.drop_last());
        let b = type_walk(ps.last().typ);
        let c = leaf(NodeV::Name(ps.last().name));
        lemma_params_walk_keeps(s, ps.drop_last());
        lemma_type_walk_keeps(s, ps.last().typ);
        lemma_leaf_keeps(s, NodeV::Name(ps.last().name));
        lemma_run_append::<SuccessorVisitor>(s, a, b);
        lemma_run_append::<SuccessorVisitor>(s, a + b, c);
    }
}

/// A walk of a program records the successor pairs of its function bodies.
proof fn lemma_funs_walk_pairs(s: Seq<(StmtV, StmtV)>, fs: Seq<FunV>)
    ensures
        run::<SuccessorVisitor>(s, funs_walk(fs)) == s + program_pairs(fs),
    decreases fs.len(),
{
    if fs.len() > 0 {
        let f = fs.last();
        let s1 = s + program_pairs(fs.drop_last());
        lemma_funs_walk_pairs(s, fs.drop_last());
        let a = type_walk(f.typ);
        let b = leaf(NodeV::Name(f.name));
        let c = param_list_walk(f.params);
        let d = stmt_walk(f.body);
        lemma_around_keeps(s1, NodeV::Fun(f), a + b + c + d);
        lemma_type_walk_keeps(s1, f.typ);
        lemma_leaf_keeps(s1, NodeV::Name(f.name));
        lemma_params_walk_keeps(s1, f.params);
        lemma_around_keeps(s1, NodeV::ParamList(f.params), params_walk(f.params));
        lemma_stmt_walk_pairs(s1, f.body);
        lemma_run_append::<SuccessorVisitor>(s1, a, b);
        lemma_run_append::<SuccessorVisitor>(s1, a + b, c);
        lemma_run_append::<SuccessorVisitor>(s1, a + b + c, d);
        lemma_run_append::<SuccessorVisitor>(s, funs_walk(fs.drop_last()), fun_walk(f));
    } else {
        assert(s + Seq::<(StmtV, StmtV)>::empty() =~= s);
    }
}

/// A walk of a program records the successor pairs of its function bodies, in order.
pub proof fn lemma_program_walk_pairs(fs: Seq<FunV>)
    ensures
        run::<SuccessorVisitor>(Seq::empty(), program_walk(fs)) == program_pairs(fs),
{
    let e = Seq::<(StmtV, StmtV)>::empty();
    lemma_around_keeps(e, NodeV::Program(fs), funs_walk(fs));
    lemma_funs_walk_pairs(e, fs);
    assert(e + program_pairs(fs) =~= program_pairs(fs));
}

/// The successor recorded last for a statement is the one found for it; recording one
/// statement's successor leaves those of the others as they were.
pub proof fn law_successor_read_after_write(
    pairs: Seq<(StmtV, StmtV)>,
    current: StmtV,
    next: StmtV,
    other: StmtV,
)
    ensures
        lookup_pair(pairs.push((current, next)), current) == Some(next),
        other != current ==> lookup_pair(pairs.push((current, next)), other) == lookup_pair(
            pairs,
            other,
        ),
{
    assert(pairs.push((current, next)).drop_last() =~= pairs);
}

proof fn lemma_lookup_consecutive(ss: Seq<StmtV>, i: int, m: int)
    requires
        forall|a: int, b: int| 0 <= a < b < ss.len() ==> ss[a] != ss[b],
        0 <= i < m <= ss.len() - 1,
    ensures
        lookup_pair(consecutive(ss).take(m), ss[i]) == Some(ss[i + 1]),
    decreases m,
{
    let s = consecutive(ss).take(m);
    assert(s.last() == (ss[m - 1], ss[m]));
    if m - 1 != i {
        assert(s.drop_last() =~= consecutive(ss).take(m - 1));
        lemma_lookup_consecutive(ss, i, m - 1);
    }
}

/// In a block whose statements are pairwise different, the successor recorded for each
/// statement but the last is the statement after it.
pub proof fn law_block_successor(ss: Seq<StmtV>, i: int)
    requires
        forall|a: int, b: int| 0 <= a < b < ss.len() ==> ss[a] != ss[b],
        0 <= i < ss.len() - 1,
    ensures
        lookup_pair(consecutive(ss), ss[i]) == Some(ss[i + 1]),
{
    lemma_lookup_consecutive(ss, i, ss.len() - 1);
    assert(consecutive(ss).take(ss.len() - 1) =~= consecutive(ss));
}

/// `y` comes right after `x` in the statement list `ss`.
pub open spec fn adjacent(ss: Seq<StmtV>, x: StmtV, y: StmtV) -> bool {
    exists|i: int| 0 <= i < ss.len() - 1 && #[trigger] ss[i] == x && ss[i + 1] == y
}

/// The statement lists of the blocks in a statement: its own, those nested in it, and those
/// of the blocks the `for` loops in it stand for.
pub open spec fn blocks_in(s: StmtV) -> Seq<Seq<StmtV>>
    decreases s, 0nat,
{
    match s {
        StmtV::Block(ss) => seq![ss] + blocks_in_all(ss),
        StmtV::ForD(init, cond, upd, body) => seq![for_head(init, *cond, upd, *body)] + match upd {
            Some(u) => seq![seq![*body, StmtV::ExprStmt(u)]],
            None => Seq::empty(),
        } + blocks_in(*body),
        StmtV::While(_, body) => blocks_in(*body),
        StmtV::If(_, t, e) => blocks_in(*t) + match e {
            Some(x) => blocks_in(*x),
            None => Seq::empty(),
        },
        _ => Seq::empty(),
    }
}

pub open spec fn blocks_in_all(ss: Seq<StmtV>) -> Seq<Seq<StmtV>>
    decreases ss, 1nat,
{
    if ss.len() == 0 {
        Seq::empty()
    } else {
        blocks_in_all(ss.drop_last()) + blocks_in(ss.last())
    }
}

/// `y` comes right after `x` in one of the statement lists `bs`.
pub open spec fn adjacent_in_some(bs: Seq<Seq<StmtV>>, x: StmtV, y: StmtV) -> bool {
    exists|j: int| 0 <= j < bs.len() && adjacent(#[trigger] bs[j], x, y)
}

spec fn pairs_match(p: Seq<(StmtV, StmtV)>, bs: Seq<Seq<StmtV>>) -> bool {
    forall|x: StmtV, y: StmtV| #[trigger] p.contains((x, y)) <==> adjacent_in_some(bs, x, y)
}

proof fn lemma_match_empty()
    ensures
        pairs_match(Seq::empty(), Seq::empty()),
{
}

proof fn lemma_match_single(ss: Seq<StmtV>)
    ensures
        pairs_match(consecutive(ss), seq![ss]),
{
    assert forall|x: StmtV, y: StmtV| #[trigger] consecutive(ss).contains((x, y)) <==> adjacent_in_some(
        seq![ss],
        x,
        y,
    ) by {
        if consecutive(ss).contains((x, y)) {
            let i = choose|i: int| 0 <= i < consecutive(ss).len() && consecutive(ss)[i] == (x, y);
            assert(ss[i] == x && ss[i + 1] == y);
            assert(adjacent(seq![ss][0], x, y));
        }
        if adjacent_in_some(seq![ss], x, y) {
            let j = choose|j: int| 0 <= j < 1 && adjacent(#[trigger] seq![ss][j], x, y);
            assert(seq![ss][j] == ss);
            let i = choose|i: int| 0 <= i < ss.len() - 1 && #[trigger] ss[i] == x && ss[i + 1] == y;
            assert(consecutive(ss)[i] == (x, y));
        }
    }
}

proof fn lemma_match_concat(
    p1: Seq<(StmtV, StmtV)>,
    b1: Seq<Seq<StmtV>>,
    p2: Seq<(StmtV, StmtV)>,
    b2: Seq<Seq<StmtV>>,
)
    requires
        pairs_match(p1, b1),
        pairs_match(p2, b2),
    ensures
        pairs_match(p1 + p2, b1 + b2),
{
    assert forall|x: StmtV, y: StmtV| #[trigger] (p1 + p2).contains((x, y)) <==> adjacent_in_some(
        b1 + b2,
        x,
        y,
    ) by {
        let q = (x, y);
        if (p1 + p2).contains(q) {
            let i = choose|i: int| 0 <= i < (p1 + p2).len() && (p1 + p2)[i] == q;
            if i < p1.len() {
                assert(p1[i] == q && p1.contains(q));
                let j = choose|j: int| 0 <= j < b1.len() && adjacent(#[trigger] b1[j], x, y);
                assert((b1 + b2)[j] == b1[j]);
            } else {
                assert(p2[i - p1.len()] == q && p2.contains(q));
                let j = choose|j: int| 0 <= j < b2.len() && adjacent(#[trigger] b2[j], x, y);
                assert((b1 + b2)[j + b1.len()] == b2[j]);
            }
        }
        if adjacent_in_some(b1 + b2, x, y) {
            let j = choose|j: int| 0 <= j < (b1 + b2).len() && adjacent(#[trigger] (b1 + b2)[j], x, y);
            if j < b1.len() {
                assert(b1[j] == (b1 + b2)[j]);
                assert(adjacent_in_some(b1, x, y));
                assert(p1.contains(q));
                let i = choose|i: int| 0 <= i < p1.len() && p1[i] == q;
                assert((p1 + p2)[i] == q);
            } else {
                assert(b2[j - b1.len()] == (b1 + b2)[j]);
                assert(adjacent_in_some(b2, x, y));
                assert(p2.contains(q));
                let i = choose|i: int| 0 <= i < p2.len() && p2[i] == q;
                assert((p1 + p2)[i + p1.len()] == q);
            }
        }
    }
}

proof fn lemma_stmt_match(s: StmtV)
    ensures
        pairs_match(stmt_pairs(s), blocks_in(s)),
    decreases s, 0nat,
{
    match s {
        StmtV::Block(ss) => {
            lemma_match_single(ss);
            lemma_stmts_match(ss);
            lemma_match_concat(consecutive(ss), seq![ss], stmts_pairs(ss), blocks_in_all(ss));
        },
        StmtV::ForD(init, cond, upd, body) => {
            let hd = for_head(init, *cond, upd, *body);
            lemma_match_single(hd);
            let (pu, bu) = match upd {
                Some(u) => (
                    consecutive(seq![*body, StmtV::ExprStmt(u)]),
                    seq![seq![*body, StmtV::ExprStmt(u)]],
                ),
                None => (Seq::<(StmtV, StmtV)>::empty(), Seq::<Seq<StmtV>>::empty()),
            };
            match upd {
                Some(u) => lemma_match_single(seq![*body, StmtV::ExprStmt(u)]),
                None => lemma_match_empty(),
            }
            lemma_match_concat(consecutive(hd), seq![hd], pu, bu);
            lemma_stmt_match(*body);
            lemma_match_concat(consecutive(hd) + pu, seq![hd] + bu, stmt_pairs(*body), blocks_in(*body));
        },
        StmtV::While(_, body) => lemma_stmt_match(*body),
        StmtV::If(_, t, e) => {
            lemma_stmt_match(*t);
            match e {
                Some(x) => {
                    lemma_stmt_match(*x);
                    lemma_match_concat(stmt_pairs(*t), blocks_in(*t), stmt_pairs(*x), blocks_in(*x));
                },
                None => {
                    lemma_match_empty();
                    lemma_match_concat(stmt_pairs(*t), blocks_in(*t), Seq::empty(), Seq::empty());
                    assert(stmt_pairs(*t) + Seq::<(StmtV, StmtV)>::empty() =~= stmt_pairs(*t));
                },
            }
        },
        _ => {
            lemma_match_empty();
        },
    }
}

proof fn lemma_stmts_match(ss: Seq<StmtV>)
    ensures
        pairs_match(stmts_pairs(ss), blocks_in_all(ss)),
    decreases ss, 1nat,
{
    if ss.len() == 0 {
        lemma_match_empty();
    } else {
        lemma_stmts_match(ss.drop_last());
        lemma_stmt_match(ss.last());
        lemma_match_concat(
            stmts_pairs(ss.drop_last()),
            blocks_in_all(ss.drop_last()),
            stmt_pairs(ss.last()),
            blocks_in(ss.last()),
        );
    }
}

/// The successor pairs of a statement are exactly the pairs of statements that stand next
/// to each other, the first before the second, in one of the blocks in it (those its `for`
/// loops stand for included).
pub proof fn law_successor_pairs_of_a_tree(s: StmtV, x: StmtV, y: StmtV)
    ensures
        stmt_pairs(s).contains((x, y)) <==> adjacent_in_some(blocks_in(s), x, y),
{
    lemma_stmt_match(s);
}

} // verus!
