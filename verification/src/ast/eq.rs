//! Comparison of syntax trees by their content.
use super::ast::{Expr, Fun, Param, Stmt, Type, Value};
use super::view::{
    expr_view, exprs_view, fun_view, lemma_exprs_view, lemma_exprs_view_ext, lemma_stmts_view,
    lemma_stmts_view_ext, param_view, params_view, stmt_view, stmts_view,
};
use std::rc::Rc;
use vstd::prelude::*;

verus! {

/// Whether two lists of parameters have the same content.
fn params_same(a: &Vec<Param>, b: &Vec<Param>) -> (r: bool)
    ensures
        r == (params_view(a@) == params_view(b@)),
{
    if a.len() != b.len() {
        assert(params_view(a@).len() != params_view(b@).len());
        return false;
    }
    let mut i: usize = 0;
    while i < a.len()
        invariant
            a.len() == b.len(),
            i <= a.len(),
            forall|j: int| 0 <= j < i ==> param_view(a@[j]) == param_view(b@[j]),
        decreases a.len() - i,
    {
        if !a[i].typ.same(&b[i].typ) || a[i].name != b[i].name {
            assert(params_view(a@)[i as int] != params_view(b@)[i as int]);
            return false;
        }
        i = i + 1;
    }
    assert(params_view(a@) =~= params_view(b@));
    true
}

impl Fun {
    /// Whether two functions have the same content.
    pub fn same(&self, other: &Fun) -> (r: bool)
        ensures
            r == (self@ == other@),
        decreases self, 0nat,
    {
        self.typ.same(&other.typ) && self.name == other.name && params_same(
            &self.params.params,
            &other.params.params,
        ) && (*self.body).same(&*other.body)
    }
}

impl Expr {
    /// Whether two expressions have the same content.
    #[verifier::loop_isolation(false)]
    pub fn same(&self, other: &Expr) -> (r: bool)
        ensures
            r == (self@ == other@),
        decreases self, 0nat,
    {
        match (self, other) {
            (Expr::Val { value: a }, Expr::Val { value: b }) => **a == **b,
            (Expr::UnaryOp { op: o1, expr: a }, Expr::UnaryOp { op: o2, expr: b }) => *o1 == *o2
                && (**a).same(&**b),
            (Expr::BinaryOp { lhs: l1, op: o1, rhs: r1 }, Expr::BinaryOp {
                lhs: l2,
                op: o2,
                rhs: r2,
            }) => *o1 == *o2 && (**l1).same(&**l2) && (**r1).same(&**r2),
            (Expr::Var { name: a }, Expr::Var { name: b }) => *a == *b,
            (Expr::CallName { callee: c1, args: a1 }, Expr::CallName { callee: c2, args: a2 }) => {
                if *c1 != *c2 {
                    return false;
                }
                let a = &a1.args;
                let b = &a2.args;
                proof {
                    lemma_exprs_view(a@);
                    lemma_exprs_view(b@);
                }
                if a.len() != b.len() {
                    return false;
                }
                let mut i: usize = 0;
                while i < a.len()
                    invariant
                        a.len() == b.len(),
                        i <= a.len(),
                        forall|j: int| 0 <= j < i ==> expr_view(*a@[j]) == expr_view(*b@[j]),
                    decreases a.len() - i,
                {
                    proof {
                        assert(decreases_to!(a@ => a@[i as int]));
                    }
                    if !(*a[i]).same(&*b[i]) {
                        assert(exprs_view(a@)[i as int] != exprs_view(b@)[i as int]);
                        return false;
                    }
                    i = i + 1;
                }
                proof {
                    lemma_exprs_view_ext(a@, b@);
                }
                true
            },
            (Expr::Array { elements: a }, Expr::Array { elements: b }) => {
                proof {
                    lemma_exprs_view(a@);
                    lemma_exprs_view(b@);
                }
                if a.len() != b.len() {
                    return false;
                }
                let mut i: usize = 0;
                while i < a.len()
                    invariant
                        a.len() == b.len(),
                        i <= a.len(),
                        forall|j: int| 0 <= j < i ==> expr_view(*a@[j]) == expr_view(*b@[j]),
                    decreases a.len() - i,
                {
                    proof {
                        assert(decreases_to!(a@ => a@[i as int]));
                    }
                    if !(*a[i]).same(&*b[i]) {
                        assert(exprs_view(a@)[i as int] != exprs_view(b@)[i as int]);
                        return false;
                    }
                    i = i + 1;
                }
                proof {
                    lemma_exprs_view_ext(a@, b@);
                }
                true
            },
            (Expr::Index { array: n1, index: a }, Expr::Index { array: n2, index: b }) => *n1
                == *n2 && (**a).same(&**b),
            (Expr::CallRef { fun: f1, args: a1 }, Expr::CallRef { fun: f2, args: a2 }) => {
                if !(**f1).same(&**f2) {
                    return false;
                }
                let a = &a1.args;
                let b = &a2.args;
                proof {
                    lemma_exprs_view(a@);
                    lemma_exprs_view(b@);
                }
                if a.len() != b.len() {
                    return false;
                }
                let mut i: usize = 0;
                while i < a.len()
                    invariant
                        a.len() == b.len(),
                        i <= a.len(),
                        forall|j: int| 0 <= j < i ==> expr_view(*a@[j]) == expr_view(*b@[j]),
                    decreases a.len() - i,
                {
                    proof {
                        assert(decreases_to!(a@ => a@[i as int]));
                    }
                    if !(*a[i]).same(&*b[i]) {
                        assert(exprs_view(a@)[i as int] != exprs_view(b@)[i as int]);
                        return false;
                    }
                    i = i + 1;
                }
                proof {
                    lemma_exprs_view_ext(a@, b@);
                }
                true
            },
            _ => false,
        }
    }
}

impl Stmt {
    /// Whether two statements have the same content.
    #[verifier::loop_isolation(false)]
    pub fn same(&self, other: &Stmt) -> (r: bool)
        ensures
            r == (self@ == other@),
        decreases self, 0nat,
    {
        match (self, other) {
            (Stmt::ForD { init: i1, condition: c1, update: u1, body: b1 }, Stmt::ForD {
                init: i2,
                condition: c2,
                update: u2,
                body: b2,
            }) => {
                let same_init = match (i1, i2) {
                    (Some(x), Some(y)) => (**x).same(&**y),
                    (None, None) => true,
                    _ => false,
                };
                let same_update = match (u1, u2) {
                    (Some(x), Some(y)) => (**x).same(&**y),
                    (None, None) => true,
                    _ => false,
                };
                same_init && (**c1).same(&**c2) && same_update && (**b1).same(&**b2)
            },
            (Stmt::If { condition: c1, then_branch: t1, else_branch: e1 }, Stmt::If {
                condition: c2,
                then_branch: t2,
                else_branch: e2,
            }) => {
                if !(**c1).same(&**c2) || !(**t1).same(&**t2) {
                    return false;
                }
                match (e1, e2) {
                    (Some(x), Some(y)) => (**x).same(&**y),
                    (None, None) => true,
                    _ => false,
                }
            },
            (Stmt::Assign { lhs: l1, rhs: r1 }, Stmt::Assign { lhs: l2, rhs: r2 }) => (**l1).same(
                &**l2,
            ) && (**r1).same(&**r2),
            (Stmt::ExprStmt { expr: a }, Stmt::ExprStmt { expr: b }) => (**a).same(&**b),
            (Stmt::Decl { typ: t1, name: n1, expr: x1 }, Stmt::Decl {
                typ: t2,
                name: n2,
                expr: x2,
            }) => {
                let same_init = match (x1, x2) {
                    (Some(x), Some(y)) => (**x).same(&**y),
                    (None, None) => true,
                    _ => false,
                };
                t1.same(t2) && *n1 == *n2 && same_init
            },
            (Stmt::Return { expr: a }, Stmt::Return { expr: b }) => (**a).same(&**b),
            (Stmt::Block { stmts: a }, Stmt::Block { stmts: b }) => {
                proof {
                    lemma_stmts_view(a@);
                    lemma_stmts_view(b@);
                }
                if a.len() != b.len() {
                    return false;
                }
                let mut i: usize = 0;
                while i < a.len()
                    invariant
                        a.len() == b.len(),
                        i <= a.len(),
                        forall|j: int| 0 <= j < i ==> stmt_view(*a@[j]) == stmt_view(*b@[j]),
                    decreases a.len() - i,
                {
                    proof {
                        assert(decreases_to!(a@ => a@[i as int]));
                    }
                    if !(*a[i]).same(&*b[i]) {
                        assert(stmts_view(a@)[i as int] != stmts_view(b@)[i as int]);
                        return false;
                    }
                    i = i + 1;
                }
                proof {
                    lemma_stmts_view_ext(a@, b@);
                }
                true
            },
            (Stmt::While { condition: c1, body: b1 }, Stmt::While { condition: c2, body: b2 }) => (
            **c1).same(&**c2) && (**b1).same(&**b2),
            (Stmt::Continue, Stmt::Continue) => true,
            (Stmt::Break, Stmt::Break) => true,
            _ => false,
        }
    }
}

} // verus!
