//! Recursive-descent parsers over a token slice, one for each rule of the grammar.
//!
//! Each parser takes the tokens and a position and answers the construct found there with
//! the position after it, or `None`; its contract is the matching rule of `grammar`.
use crate::ast::ast::{Arguments, Expr, Fun, Name, Operation, Param, ParamList, Stmt, Type,
    UOperation, Value};
use crate::ast::ast::{funs_view, Program};
use crate::ast::view::{
    exprs_view, lemma_exprs_view_push, lemma_stmts_view_push, opt_expr_view, param_view,
    params_view, stmts_view, ExprV, FunV, ParamV, StmtV,
};
use crate::parser::grammar::{
    add_at, add_sub_op_at, add_tail_at, arguments_at, array_suffixes, assign_at, assign_target_at,
    atom_at, block_at, bool_int_literal_at, break_at, continue_at, decl_at, equality_op_at,
    expect_at, expr_at, expr_list_at, expr_list_tail_at, expr_stmt_at, for_d_at, forward, fun_at,
    funs_from, if_at, insert_fun, insert_funs, is_tag, literal_at, main_fun_at, main_name,
    mul_at, mul_div_op_at, mul_tail_at, name_at, opt_expr_at, param_at, param_list_at,
    param_list_tail_at, params_at, program_at, rel_at, relational_op_at, return_at,
    scalar_type_at, stmt_at, stmts_from, type_at, unary_at, unary_op_at, unit_literal_at,
    while_at, wrap_array,
};
use crate::parser::lexer::lexer::tokens_view;
use crate::parser::lexer::token::{Token, TokenLexeme, TokenTag, TokenV};
use std::rc::Rc;
use vstd::prelude::*;

verus! {

/// The views of the tokens of a slice.
pub open spec fn toks(t: &[Token]) -> Seq<TokenV> {
    tokens_view(t@)
}

pub open spec fn same_expr(r: Option<(Rc<Expr>, usize)>, s: Option<(ExprV, int)>) -> bool {
    match (r, s) {
        (Some((e, p)), Some((v, q))) => e@ == v && p == q,
        (None, None) => true,
        _ => false,
    }
}

pub open spec fn same_plain_expr(r: Option<(Expr, usize)>, s: Option<(ExprV, int)>) -> bool {
    match (r, s) {
        (Some((e, p)), Some((v, q))) => e@ == v && p == q,
        (None, None) => true,
        _ => false,
    }
}

pub open spec fn same_stmt(r: Option<(Stmt, usize)>, s: Option<(StmtV, int)>) -> bool {
    match (r, s) {
        (Some((e, p)), Some((v, q))) => e@ == v && p == q,
        (None, None) => true,
        _ => false,
    }
}

pub open spec fn same_plain<A>(r: Option<(A, usize)>, s: Option<(A, int)>) -> bool {
    match (r, s) {
        (Some((e, p)), Some((v, q))) => e == v && p == q,
        (None, None) => true,
        _ => false,
    }
}

pub open spec fn same_fun(r: Option<(Fun, usize)>, s: Option<(FunV, int)>) -> bool {
    match (r, s) {
        (Some((e, p)), Some((v, q))) => e@ == v && p == q,
        (None, None) => true,
        _ => false,
    }
}

pub open spec fn ends_within<A>(r: Option<(A, usize)>, p: int, n: int) -> bool {
    match r {
        Some((_, q)) => p < q <= n,
        None => true,
    }
}

/// Whether the token at `p` has the tag `tag`.
fn tag_is(t: &[Token], p: usize, tag: TokenTag) -> (r: bool)
    ensures
        r == is_tag(toks(t), p as int, tag),
        r ==> p < t.len(),
{
    p < t.len() && t[p].kind() == tag
}

/// A single token of the given tag.
pub fn expect_tag(t: &[Token], p: usize, expected: TokenTag) -> (r: Option<usize>)
    requires
        p <= t.len(),
    ensures
        match r {
            Some(q) => expect_at(toks(t), p as int, expected) == Some(q as int),
            None => expect_at(toks(t), p as int, expected) is None,
        },
{
    if tag_is(t, p, expected) {
        Some(p + 1)
    } else {
        None
    }
}

pub fn name_parser(t: &[Token], p: usize) -> (r: Option<(Name, usize)>)
    requires
        p <= t.len(),
    ensures
        match r {
            Some((s, q)) => name_at(toks(t), p as int) == Some((s@, q as int)),
            None => name_at(toks(t), p as int) is None,
        },
        ends_within(r, p as int, t.len() as int),
{
    if tag_is(t, p, TokenTag::NAME) {
        match t[p].lexeme() {
            Some(TokenLexeme::Name(s)) => Some((s.clone(), p + 1)),
            _ => None,
        }
    } else {
        None
    }
}

pub fn scalar_type_parser(t: &[Token], p: usize) -> (r: Option<(Type, usize)>)
    requires
        p <= t.len(),
    ensures
        same_plain(r, scalar_type_at(toks(t), p as int)),
        ends_within(r, p as int, t.len() as int),
{
    if tag_is(t, p, TokenTag::BOOL) {
        Some((Type::BoolT, p + 1))
    } else if tag_is(t, p, TokenTag::INT) {
        Some((Type::IntT, p + 1))
    } else if tag_is(t, p, TokenTag::UNIT) {
        Some((Type::UnitT, p + 1))
    } else {
        None
    }
}

pub fn type_parser(t: &[Token], p: usize) -> (r: Option<(Type, usize)>)
    requires
        p <= t.len(),
    ensures
        same_plain(r, type_at(toks(t), p as int)),
        ends_within(r, p as int, t.len() as int),
{
    match scalar_type_parser(t, p) {
        Some((base, p1)) => {
            let mut ty = base;
            let mut q = p1;
            let ghost mut k: nat = 0;
            while tag_is(t, q, TokenTag::LSQUARE) && tag_is(t, q + 1, TokenTag::RSQUARE)
                invariant
                    p1 <= q <= t.len(),
                    array_suffixes(toks(t), p1 as int) == ((
                    array_suffixes(toks(t), q as int).0 + k) as nat, array_suffixes(
                        toks(t),
                        q as int,
                    ).1),
                    ty == wrap_array(base, k),
                decreases t.len() - q,
            {
                ty = Type::ArrayT(Rc::new(ty));
                q = q + 2;
                proof {
                    k = k + 1;
                }
            }
            Some((ty, q))
        },
        None => None,
    }
}

pub fn bool_int_literal_parser(t: &[Token], p: usize) -> (r: Option<(Expr, usize)>)
    requires
        p <= t.len(),
    ensures
        same_plain_expr(r, bool_int_literal_at(toks(t), p as int)),
        ends_within(r, p as int, t.len() as int),
{
    if tag_is(t, p, TokenTag::INTLIT) {
        match t[p].lexeme() {
            Some(TokenLexeme::Int(n)) => {
                let n = *n;
                if -2147483648i64 <= n && n <= 2147483647i64 {
                    Some((Expr::val(Rc::new(Value::IntV(n as i32))), p + 1))
                } else {
                    None
                }
            },
            _ => None,
        }
    } else if tag_is(t, p, TokenTag::TRUE) {
        Some((Expr::val(Rc::new(Value::BoolV(true))), p + 1))
    } else if tag_is(t, p, TokenTag::FALSE) {
        Some((Expr::val(Rc::new(Value::BoolV(false))), p + 1))
    } else {
        None
    }
}

pub fn unit_literal_parser(t: &[Token], p: usize) -> (r: Option<(Expr, usize)>)
    requires
        p <= t.len(),
    ensures
        same_plain_expr(r, unit_literal_at(toks(t), p as int)),
        ends_within(r, p as int, t.len() as int),
{
    if tag_is(t, p, TokenTag::LPAREN) && tag_is(t, p + 1, TokenTag::RPAREN) {
        Some((Expr::val(Rc::new(Value::UnitV)), p + 2))
    } else {
        None
    }
}

pub fn literal_parser(t: &[Token], p: usize) -> (r: Option<(Expr, usize)>)
    requires
        p <= t.len(),
    ensures
        same_plain_expr(r, literal_at(toks(t), p as int)),
        ends_within(r, p as int, t.len() as int),
{
    match bool_int_literal_parser(t, p) {
        Some(r) => Some(r),
        None => unit_literal_parser(t, p),
    }
}

pub fn unary_op_parser(t: &[Token], p: usize) -> (r: Option<(UOperation, usize)>)
    requires
        p <= t.len(),
    ensures
        match r {
            Some((op, q)) => unary_op_at(toks(t), p as int) == Some(op) && q == p + 1,
            None => unary_op_at(toks(t), p as int) is None,
        },
{
    if tag_is(t, p, TokenTag::NOT) {
        Some((UOperation::Not, p + 1))
    } else if tag_is(t, p, TokenTag::MINUS) {
        Some((UOperation::Neg, p + 1))
    } else {
        None
    }
}

pub fn mul_div_op_parser(t: &[Token], p: usize) -> (r: Option<(Operation, usize)>)
    requires
        p <= t.len(),
    ensures
        match r {
            Some((op, q)) => mul_div_op_at(toks(t), p as int) == Some(op) && q == p + 1,
            None => mul_div_op_at(toks(t), p as int) is None,
        },
{
    if tag_is(t, p, TokenTag::TIMES) {
        Some((Operation::Mult, p + 1))
    } else if tag_is(t, p, TokenTag::DIVIDE) {
        Some((Operation::Div, p + 1))
    } else if tag_is(t, p, TokenTag::MOD) {
        Some((Operation::Rem, p + 1))
    } else {
        None
    }
}

pub fn add_sub_op_parser(t: &[Token], p: usize) -> (r: Option<(Operation, usize)>)
    requires
        p <= t.len(),
    ensures
        match r {
            Some((op, q)) => add_sub_op_at(toks(t), p as int) == Some(op) && q == p + 1,
            None => add_sub_op_at(toks(t), p as int) is None,
        },
{
    if tag_is(t, p, TokenTag::PLUS) {
        Some((Operation::Add, p + 1))
    } else if tag_is(t, p, TokenTag::MINUS) {
        Some((Operation::Sub, p + 1))
    } else {
        None
    }
}

pub fn relational_op_parser(t: &[Token], p: usize) -> (r: Option<(Operation, usize)>)
    requires
        p <= t.len(),
    ensures
        match r {
            Some((op, q)) => relational_op_at(toks(t), p as int) == Some(op) && q == p + 1,
            None => relational_op_at(toks(t), p as int) is None,
        },
{
    if tag_is(t, p, TokenTag::LT) {
        Some((Operation::Lt, p + 1))
    } else if tag_is(t, p, TokenTag::GT) {
        Some((Operation::Gt, p + 1))
    } else if tag_is(t, p, TokenTag::LEQ) {
        Some((Operation::Lte, p + 1))
    } else if tag_is(t, p, TokenTag::GEQ) {
        Some((Operation::Gte, p + 1))
    } else {
        None
    }
}

pub fn equality_op_parser(t: &[Token], p: usize) -> (r: Option<(Operation, usize)>)
    requires
        p <= t.len(),
    ensures
        match r {
            Some((op, q)) => equality_op_at(toks(t), p as int) == Some(op) && q == p + 1,
            None => equality_op_at(toks(t), p as int) is None,
        },
{
    if tag_is(t, p, TokenTag::EQEQ) {
        Some((Operation::Eq, p + 1))
    } else if tag_is(t, p, TokenTag::NOTEQ) {
        Some((Operation::Neq, p + 1))
    } else {
        None
    }
}


/// An expression: `rel (('==' | '!=') rel)?`.
pub fn expression_parser(t: &[Token], p: usize) -> (r: Option<(Rc<Expr>, usize)>)
    requires
        p <= t.len(),
    ensures
        same_expr(r, expr_at(toks(t), p as int)),
        ends_within(r, p as int, t.len() as int),
    decreases t.len() - p, 10nat,
{
    match rel_expr(t, p) {
        Some((l, p1)) => match equality_op_parser(t, p1) {
            Some((op, _)) => match rel_expr(t, p1 + 1) {
                Some((rhs, p2)) => Some((Rc::new(Expr::binary_op(l, op, rhs)), p2)),
                None => Some((l, p1)),
            },
            None => Some((l, p1)),
        },
        None => None,
    }
}

fn rel_expr(t: &[Token], p: usize) -> (r: Option<(Rc<Expr>, usize)>)
    requires
        p <= t.len(),
    ensures
        same_expr(r, rel_at(toks(t), p as int)),
        ends_within(r, p as int, t.len() as int),
    decreases t.len() - p, 9nat,
{
    match add_expr(t, p) {
        Some((l, p1)) => match relational_op_parser(t, p1) {
            Some((op, _)) => match add_expr(t, p1 + 1) {
                Some((rhs, p2)) => Some((Rc::new(Expr::binary_op(l, op, rhs)), p2)),
                None => Some((l, p1)),
            },
            None => Some((l, p1)),
        },
        None => None,
    }
}

fn add_expr(t: &[Token], p: usize) -> (r: Option<(Rc<Expr>, usize)>)
    requires
        p <= t.len(),
    ensures
        same_expr(r, add_at(toks(t), p as int)),
        ends_within(r, p as int, t.len() as int),
    decreases t.len() - p, 8nat,
{
    match mul_expr(t, p) {
        Some((l, p1)) => Some(add_tail(t, p1, l)),
        None => None,
    }
}

fn add_tail(t: &[Token], p: usize, acc: Rc<Expr>) -> (r: (Rc<Expr>, usize))
    requires
        p <= t.len(),
    ensures
        r.0@ == add_tail_at(toks(t), p as int, acc@).0,
        r.1 == add_tail_at(toks(t), p as int, acc@).1,
        p <= r.1 <= t.len(),
    decreases t.len() - p, 7nat,
{
    match add_sub_op_parser(t, p) {
        Some((op, _)) => match mul_expr(t, p + 1) {
            Some((rhs, p2)) => add_tail(t, p2, Rc::new(Expr::binary_op(acc, op, rhs))),
            None => (acc, p),
        },
        None => (acc, p),
    }
}

fn mul_expr(t: &[Token], p: usize) -> (r: Option<(Rc<Expr>, usize)>)
    requires
        p <= t.len(),
    ensures
        same_expr(r, mul_at(toks(t), p as int)),
        ends_within(r, p as int, t.len() as int),
    decreases t.len() - p, 6nat,
{
    match unary_expr(t, p) {
        Some((l, p1)) => Some(mul_tail(t, p1, l)),
        None => None,
    }
}

fn mul_tail(t: &[Token], p: usize, acc: Rc<Expr>) -> (r: (Rc<Expr>, usize))
    requires
        p <= t.len(),
    ensures
        r.0@ == mul_tail_at(toks(t), p as int, acc@).0,
        r.1 == mul_tail_at(toks(t), p as int, acc@).1,
        p <= r.1 <= t.len(),
    decreases t.len() - p, 5nat,
{
    match mul_div_op_parser(t, p) {
        Some((op, _)) => match unary_expr(t, p + 1) {
            Some((rhs, p2)) => mul_tail(t, p2, Rc::new(Expr::binary_op(acc, op, rhs))),
            None => (acc, p),
        },
        None => (acc, p),
    }
}

fn unary_expr(t: &[Token], p: usize) -> (r: Option<(Rc<Expr>, usize)>)
    requires
        p <= t.len(),
    ensures
        same_expr(r, unary_at(toks(t), p as int)),
        ends_within(r, p as int, t.len() as int),
    decreases t.len() - p, 4nat,
{
    match unary_op_parser(t, p) {
        Some((op, _)) => match unary_expr(t, p + 1) {
            Some((e, p1)) => Some((Rc::new(Expr::unary_op(op, e)), p1)),
            None => None,
        },
        None => atom_expr_parser(t, p),
    }
}

/// `Val | Id Arguments | Id [ Expr ] | Id | [ ArgumentList? ] | ( Expr )`
pub fn atom_expr_parser(t: &[Token], p: usize) -> (r: Option<(Rc<Expr>, usize)>)
    requires
        p <= t.len(),
    ensures
        same_expr(r, atom_at(toks(t), p as int)),
        ends_within(r, p as int, t.len() as int),
    decreases t.len() - p, 3nat,
{
    match literal_parser(t, p) {
        Some((e, q)) => {
            return Some((Rc::new(e), q));
        },
        None => {},
    }
    match name_parser(t, p) {
        Some((name, p1)) => {
            match arguments_parser(t, p1) {
                Some((args, p2)) => {
                    return Some((Rc::new(Expr::call_name(name, args)), p2));
                },
                None => {},
            }
            if tag_is(t, p1, TokenTag::LSQUARE) {
                match expression_parser(t, p1 + 1) {
                    Some((i, p2)) => {
                        if tag_is(t, p2, TokenTag::RSQUARE) {
                            return Some((Rc::new(Expr::index(name, i)), p2 + 1));
                        }
                    },
                    None => {},
                }
            }
            Some((Rc::new(Expr::var(name)), p1))
        },
        None => {
            if tag_is(t, p, TokenTag::LSQUARE) {
                let (elements, p2) = expr_list(t, p + 1);
                if tag_is(t, p2, TokenTag::RSQUARE) {
                    Some((Rc::new(Expr::array(elements)), p2 + 1))
                } else {
                    None
                }
            } else if tag_is(t, p, TokenTag::LPAREN) {
                match expression_parser(t, p + 1) {
                    Some((e, p2)) => if tag_is(t, p2, TokenTag::RPAREN) {
                        Some((e, p2 + 1))
                    } else {
                        None
                    },
                    None => None,
                }
            } else {
                None
            }
        },
    }
}

/// `Arguments ::= ( ArgumentList? )`
pub fn arguments_parser(t: &[Token], p: usize) -> (r: Option<(Arguments, usize)>)
    requires
        p <= t.len(),
    ensures
        match r {
            Some((a, q)) => arguments_at(toks(t), p as int) == Some((exprs_view(a.args@), q as int)),
            None => arguments_at(toks(t), p as int) is None,
        },
        ends_within(r, p as int, t.len() as int),
    decreases t.len() - p, 13nat,
{
    if tag_is(t, p, TokenTag::LPAREN) {
        let (args, p2) = expr_list(t, p + 1);
        if tag_is(t, p2, TokenTag::RPAREN) {
            Some((Arguments { args }, p2 + 1))
        } else {
            None
        }
    } else {
        None
    }
}

/// A possibly empty, comma-separated list of expressions.
fn expr_list(t: &[Token], p: usize) -> (r: (Vec<Rc<Expr>>, usize))
    requires
        p <= t.len(),
    ensures
        expr_list_at(toks(t), p as int) == Some((exprs_view(r.0@), r.1 as int)),
        p <= r.1 <= t.len(),
    decreases t.len() - p, 12nat,
{
    match expression_parser(t, p) {
        Some((e, p1)) => {
            let mut v: Vec<Rc<Expr>> = Vec::new();
            v.push(e);
            proof {
                lemma_exprs_view_push(Seq::empty(), e);
                assert(v@ =~= Seq::<Rc<Expr>>::empty().push(e));
                assert(exprs_view(Seq::<Rc<Expr>>::empty()) =~= Seq::<ExprV>::empty());
                assert(Seq::<ExprV>::empty().push(e@) =~= seq![e@]);
            }
            expr_list_tail(t, p1, v)
        },
        None => {
            proof {
                assert(exprs_view(Seq::<Rc<Expr>>::empty()) =~= Seq::<ExprV>::empty());
            }
            (Vec::new(), p)
        },
    }
}

fn expr_list_tail(t: &[Token], p: usize, acc: Vec<Rc<Expr>>) -> (r: (Vec<Rc<Expr>>, usize))
    requires
        p <= t.len(),
    ensures
        expr_list_tail_at(toks(t), p as int, exprs_view(acc@)) == (exprs_view(r.0@), r.1 as int),
        p <= r.1 <= t.len(),
    decreases t.len() - p, 11nat,
{
    if tag_is(t, p, TokenTag::COMMA) {
        match expression_parser(t, p + 1) {
            Some((e, p2)) => {
                let mut acc = acc;
                let ghost old_acc = acc@;
                acc.push(e);
                proof {
                    lemma_exprs_view_push(old_acc, e);
                }
                expr_list_tail(t, p2, acc)
            },
            None => (acc, p),
        }
    } else {
        (acc, p)
    }
}


/// An optional expression.
fn opt_expression(t: &[Token], p: usize) -> (r: (Option<Rc<Expr>>, usize))
    requires
        p <= t.len(),
    ensures
        opt_expr_at(toks(t), p as int) == (opt_expr_view(r.0), r.1 as int),
        p <= r.1 <= t.len(),
{
    match expression_parser(t, p) {
        Some((e, p1)) => (Some(e), p1),
        None => (None, p),
    }
}

/// `AssignTarget ::= Id | Id [ Expr ]`
pub fn assign_target_parser(t: &[Token], p: usize) -> (r: Option<(Rc<Expr>, usize)>)
    requires
        p <= t.len(),
    ensures
        same_expr(r, assign_target_at(toks(t), p as int)),
        ends_within(r, p as int, t.len() as int),
{
    match name_parser(t, p) {
        Some((name, p1)) => {
            if tag_is(t, p1, TokenTag::LSQUARE) {
                match expression_parser(t, p1 + 1) {
                    Some((i, p2)) => {
                        if tag_is(t, p2, TokenTag::RSQUARE) {
                            return Some((Rc::new(Expr::index(name, i)), p2 + 1));
                        }
                    },
                    None => {},
                }
            }
            Some((Rc::new(Expr::var(name)), p1))
        },
        None => None,
    }
}

/// A statement: the first of the statement forms that parses.
pub fn statement_parser(t: &[Token], p: usize) -> (r: Option<(Stmt, usize)>)
    requires
        p <= t.len(),
    ensures
        same_stmt(r, stmt_at(toks(t), p as int)),
        ends_within(r, p as int, t.len() as int),
    decreases t.len() - p, 3nat,
{
    match for_d_stmt_parser(t, p) {
        Some(r) => {
            return Some(r);
        },
        None => {},
    }
    match if_stmt_parser(t, p) {
        Some(r) => {
            return Some(r);
        },
        None => {},
    }
    match while_stmt_parser(t, p) {
        Some(r) => {
            return Some(r);
        },
        None => {},
    }
    match assign_stmt_parser(t, p) {
        Some(r) => {
            return Some(r);
        },
        None => {},
    }
    match decl_d_stmt_parser(t, p) {
        Some(r) => {
            return Some(r);
        },
        None => {},
    }
    match return_stmt_parser(t, p) {
        Some(r) => {
            return Some(r);
        },
        None => {},
    }
    match block_stmt_parser(t, p) {
        Some(r) => {
            return Some(r);
        },
        None => {},
    }
    match continue_stmt_parser(t, p) {
        Some(r) => {
            return Some(r);
        },
        None => {},
    }
    match break_stmt_parser(t, p) {
        Some(r) => {
            return Some(r);
        },
        None => {},
    }
    expr_stmt_parser(t, p)
}

/// `ForD ::= for ( Expr? ; Expr ; Expr? ) Block`
pub fn for_d_stmt_parser(t: &[Token], p: usize) -> (r: Option<(Stmt, usize)>)
    requires
        p <= t.len(),
    ensures
        same_stmt(r, for_d_at(toks(t), p as int)),
        ends_within(r, p as int, t.len() as int),
    decreases t.len() - p, 2nat,
{
    if tag_is(t, p, TokenTag::FOR) && tag_is(t, p + 1, TokenTag::LPAREN) {
        let (init, p1) = opt_expression(t, p + 2);
        if tag_is(t, p1, TokenTag::SEMICOLON) {
            match expression_parser(t, p1 + 1) {
                Some((cond, p2)) => if tag_is(t, p2, TokenTag::SEMICOLON) {
                    let (update, p3) = opt_expression(t, p2 + 1);
                    if tag_is(t, p3, TokenTag::RPAREN) {
                        match block_stmt_parser(t, p3 + 1) {
                            Some((body, p4)) => Some(
                                (Stmt::for_d(init, cond, update, Rc::new(body)), p4),
                            ),
                            None => None,
                        }
                    } else {
                        None
                    }
                } else {
                    None
                },
                None => None,
            }
        } else {
            None
        }
    } else {
        None
    }
}

/// `If ::= if ( Expr ) Block (else Block)?`
pub fn if_stmt_parser(t: &[Token], p: usize) -> (r: Option<(Stmt, usize)>)
    requires
        p <= t.len(),
    ensures
        same_stmt(r, if_at(toks(t), p as int)),
        ends_within(r, p as int, t.len() as int),
    decreases t.len() - p, 2nat,
{
    if tag_is(t, p, TokenTag::IF) && tag_is(t, p + 1, TokenTag::LPAREN) {
        match expression_parser(t, p + 2) {
            Some((cond, p1)) => if tag_is(t, p1, TokenTag::RPAREN) {
                match block_stmt_parser(t, p1 + 1) {
                    Some((then_b, p2)) => {
                        if tag_is(t, p2, TokenTag::ELSE) {
                            match block_stmt_parser(t, p2 + 1) {
                                Some((else_b, p3)) => {
                                    return Some(
                                        (
                                            Stmt::if_(
                                                cond,
                                                Rc::new(then_b),
                                                Some(Rc::new(else_b)),
                                            ),
                                            p3,
                                        ),
                                    );
                                },
                                None => {},
                            }
                        }
                        Some((Stmt::if_(cond, Rc::new(then_b), None), p2))
                    },
                    None => None,
                }
            } else {
                None
            },
            None => None,
        }
    } else {
        None
    }
}

/// `While ::= while ( Expr ) Block`
pub fn while_stmt_parser(t: &[Token], p: usize) -> (r: Option<(Stmt, usize)>)
    requires
        p <= t.len(),
    ensures
        same_stmt(r, while_at(toks(t), p as int)),
        ends_within(r, p as int, t.len() as int),
    decreases t.len() - p, 2nat,
{
    if tag_is(t, p, TokenTag::WHILE) && tag_is(t, p + 1, TokenTag::LPAREN) {
        match expression_parser(t, p + 2) {
            Some((cond, p1)) => if tag_is(t, p1, TokenTag::RPAREN) {
                match block_stmt_parser(t, p1 + 1) {
                    Some((body, p2)) => Some((Stmt::while_(cond, Rc::new(body)), p2)),
                    None => None,
                }
            } else {
                None
            },
            None => None,
        }
    } else {
        None
    }
}

/// `Assign ::= AssignTarget = Expr ;`
pub fn assign_stmt_parser(t: &[Token], p: usize) -> (r: Option<(Stmt, usize)>)
    requires
        p <= t.len(),
    ensures
        same_stmt(r, assign_at(toks(t), p as int)),
        ends_within(r, p as int, t.len() as int),
{
    match assign_target_parser(t, p) {
        Some((lhs, p1)) => if tag_is(t, p1, TokenTag::EQ) {
            match expression_parser(t, p1 + 1) {
                Some((rhs, p2)) => if tag_is(t, p2, TokenTag::SEMICOLON) {
                    Some((Stmt::assign(lhs, rhs), p2 + 1))
                } else {
                    None
                },
                None => None,
            }
        } else {
            None
        },
        None => None,
    }
}

/// `DeclD ::= Type Id (= Expr)? ;`
pub fn decl_d_stmt_parser(t: &[Token], p: usize) -> (r: Option<(Stmt, usize)>)
    requires
        p <= t.len(),
    ensures
        same_stmt(r, decl_at(toks(t), p as int)),
        ends_within(r, p as int, t.len() as int),
{
    match type_parser(t, p) {
        Some((typ, p1)) => match name_parser(t, p1) {
            Some((name, p2)) => {
                let (expr, p3) = if tag_is(t, p2, TokenTag::EQ) {
                    match expression_parser(t, p2 + 1) {
                        Some((e, p3)) => (Some(e), p3),
                        None => (None, p2),
                    }
                } else {
                    (None, p2)
                };
                if tag_is(t, p3, TokenTag::SEMICOLON) {
                    Some((Stmt::decl(typ, name, expr), p3 + 1))
                } else {
                    None
                }
            },
            None => None,
        },
        None => None,
    }
}

/// `Return ::= return Expr ;`
pub fn return_stmt_parser(t: &[Token], p: usize) -> (r: Option<(Stmt, usize)>)
    requires
        p <= t.len(),
    ensures
        same_stmt(r, return_at(toks(t), p as int)),
        ends_within(r, p as int, t.len() as int),
{
    if tag_is(t, p, TokenTag::RETURN) {
        match expression_parser(t, p + 1) {
            Some((e, p1)) => if tag_is(t, p1, TokenTag::SEMICOLON) {
                Some((Stmt::return_(e), p1 + 1))
            } else {
                None
            },
            None => None,
        }
    } else {
        None
    }
}

/// `Block ::= { Statement* }`
pub fn block_stmt_parser(t: &[Token], p: usize) -> (r: Option<(Stmt, usize)>)
    requires
        p <= t.len(),
    ensures
        same_stmt(r, block_at(toks(t), p as int)),
        ends_within(r, p as int, t.len() as int),
    decreases t.len() - p, 1nat,
{
    if tag_is(t, p, TokenTag::LCURLY) {
        proof {
            assert(stmts_view(Seq::<Rc<Stmt>>::empty()) =~= Seq::<StmtV>::empty());
        }
        let (stmts, p1) = statements(t, p + 1, Vec::new());
        if tag_is(t, p1, TokenTag::RCURLY) {
            Some((Stmt::block(stmts), p1 + 1))
        } else {
            None
        }
    } else {
        None
    }
}

/// As many statements as parse from `p` on, after those of `acc`.
fn statements(t: &[Token], p: usize, acc: Vec<Rc<Stmt>>) -> (r: (Vec<Rc<Stmt>>, usize))
    requires
        p <= t.len(),
    ensures
        stmts_from(toks(t), p as int, stmts_view(acc@)) == (stmts_view(r.0@), r.1 as int),
        p <= r.1 <= t.len(),
    decreases t.len() - p, 4nat,
{
    match statement_parser(t, p) {
        Some((s, p1)) => {
            let mut acc = acc;
            let ghost old_acc = acc@;
            let s = Rc::new(s);
            acc.push(s);
            proof {
                lemma_stmts_view_push(old_acc, s);
            }
            statements(t, p1, acc)
        },
        None => (acc, p),
    }
}

/// `continue ;`
pub fn continue_stmt_parser(t: &[Token], p: usize) -> (r: Option<(Stmt, usize)>)
    requires
        p <= t.len(),
    ensures
        same_stmt(r, continue_at(toks(t), p as int)),
        ends_within(r, p as int, t.len() as int),
{
    if tag_is(t, p, TokenTag::CONTINUE) && tag_is(t, p + 1, TokenTag::SEMICOLON) {
        Some((Stmt::continue_(), p + 2))
    } else {
        None
    }
}

/// `break ;`
pub fn break_stmt_parser(t: &[Token], p: usize) -> (r: Option<(Stmt, usize)>)
    requires
        p <= t.len(),
    ensures
        same_stmt(r, break_at(toks(t), p as int)),
        ends_within(r, p as int, t.len() as int),
{
    if tag_is(t, p, TokenTag::BREAK) && tag_is(t, p + 1, TokenTag::SEMICOLON) {
        Some((Stmt::break_(), p + 2))
    } else {
        None
    }
}

/// `ExprStmt ::= Expr ;`
fn expr_stmt_parser(t: &[Token], p: usize) -> (r: Option<(Stmt, usize)>)
    requires
        p <= t.len(),
    ensures
        same_stmt(r, expr_stmt_at(toks(t), p as int)),
        ends_within(r, p as int, t.len() as int),
{
    match expression_parser(t, p) {
        Some((e, p1)) => if tag_is(t, p1, TokenTag::SEMICOLON) {
            Some((Stmt::expr_stmt(e), p1 + 1))
        } else {
            None
        },
        None => None,
    }
}

/// `Parameter ::= Type Id`
pub fn param_parser(t: &[Token], p: usize) -> (r: Option<(Param, usize)>)
    requires
        p <= t.len(),
    ensures
        match r {
            Some((x, q)) => param_at(toks(t), p as int) == Some((param_view(x), q as int)),
            None => param_at(toks(t), p as int) is None,
        },
        ends_within(r, p as int, t.len() as int),
{
    match type_parser(t, p) {
        Some((typ, p1)) => match name_parser(t, p1) {
            Some((name, p2)) => Some((Param { typ, name }, p2)),
            None => None,
        },
        None => None,
    }
}

/// `ParameterList ::= Parameter (, Parameter)*`
pub fn param_list_parser(t: &[Token], p: usize) -> (r: Option<(ParamList, usize)>)
    requires
        p <= t.len(),
    ensures
        match r {
            Some((x, q)) => param_list_at(toks(t), p as int) == Some(
                (params_view(x.params@), q as int),
            ),
            None => param_list_at(toks(t), p as int) is None,
        },
        ends_within(r, p as int, t.len() as int),
{
    match param_parser(t, p) {
        Some((x, p1)) => {
            let mut v: Vec<Param> = Vec::new();
            v.push(x);
            proof {
                assert(params_view(v@) =~= seq![param_view(x)]);
            }
            let (params, p2) = param_list_tail(t, p1, v);
            Some((ParamList { params }, p2))
        },
        None => None,
    }
}

fn param_list_tail(t: &[Token], p: usize, acc: Vec<Param>) -> (r: (Vec<Param>, usize))
    requires
        p <= t.len(),
    ensures
        param_list_tail_at(toks(t), p as int, params_view(acc@)) == (params_view(r.0@), r.1 as int),
        p <= r.1 <= t.len(),
    decreases t.len() - p,
{
    if tag_is(t, p, TokenTag::COMMA) {
        match param_parser(t, p + 1) {
            Some((x, p2)) => {
                let mut acc = acc;
                let ghost old_acc = acc@;
                acc.push(x);
                proof {
                    assert(params_view(acc@) =~= params_view(old_acc).push(param_view(x)));
                }
                param_list_tail(t, p2, acc)
            },
            None => (acc, p),
        }
    } else {
        (acc, p)
    }
}

/// `Parameters ::= ( ParameterList? )`
pub fn params_parser(t: &[Token], p: usize) -> (r: Option<(ParamList, usize)>)
    requires
        p <= t.len(),
    ensures
        match r {
            Some((x, q)) => params_at(toks(t), p as int) == Some(
                (params_view(x.params@), q as int),
            ),
            None => params_at(toks(t), p as int) is None,
        },
        ends_within(r, p as int, t.len() as int),
{
    if tag_is(t, p, TokenTag::LPAREN) {
        let (ps, p1) = match param_list_parser(t, p + 1) {
            Some((ps, p1)) => (ps, p1),
            None => {
                let ps = ParamList { params: Vec::new() };
                assert(params_view(ps.params@) =~= Seq::<ParamV>::empty());
                (ps, p + 1)
            },
        };
        if tag_is(t, p1, TokenTag::RPAREN) {
            Some((ps, p1 + 1))
        } else {
            None
        }
    } else {
        None
    }
}

/// `Fun ::= Type Id Parameters Block`
pub fn fun_parser(t: &[Token], p: usize) -> (r: Option<(Fun, usize)>)
    requires
        p <= t.len(),
    ensures
        same_fun(r, fun_at(toks(t), p as int)),
        ends_within(r, p as int, t.len() as int),
{
    match type_parser(t, p) {
        Some((typ, p1)) => match name_parser(t, p1) {
            Some((name, p2)) => match params_parser(t, p2) {
                Some((params, p3)) => match block_stmt_parser(t, p3) {
                    Some((body, p4)) => Some(
                        (Fun { typ, name, params: Rc::new(params), body: Rc::new(body) }, p4),
                    ),
                    None => None,
                },
                None => None,
            },
            None => None,
        },
        None => None,
    }
}

/// `MainFun ::= Type main ( ) Block`
pub fn main_fun_parser(t: &[Token], p: usize) -> (r: Option<(Fun, usize)>)
    requires
        p <= t.len(),
    ensures
        same_fun(r, main_fun_at(toks(t), p as int)),
        ends_within(r, p as int, t.len() as int),
{
    match type_parser(t, p) {
        Some((typ, p1)) => if tag_is(t, p1, TokenTag::MAIN) && tag_is(t, p1 + 1, TokenTag::LPAREN)
            && tag_is(t, p1 + 2, TokenTag::RPAREN) {
            match block_stmt_parser(t, p1 + 3) {
                Some((body, p2)) => {
                    let main = "main";
                    proof {
                        reveal_strlit("main");
                    }
                    let name = main.to_owned();
                    let params = ParamList { params: Vec::new() };
                    assert(name@ =~= main_name());
                    assert(params_view(params.params@) =~= Seq::<ParamV>::empty());
                    Some((Fun { typ, name, params: Rc::new(params), body: Rc::new(body) }, p2))
                },
                None => None,
            }
        } else {
            None
        },
        None => None,
    }
}

/// As many functions as parse from `p` on, after those of `acc`.
fn functions(t: &[Token], p: usize, acc: Vec<Fun>) -> (r: (Vec<Fun>, usize))
    requires
        p <= t.len(),
    ensures
        funs_from(toks(t), p as int, funs_view(acc@)) == (funs_view(r.0@), r.1 as int),
        p <= r.1 <= t.len(),
    decreases t.len() - p,
{
    match fun_parser(t, p) {
        Some((f, p1)) => {
            let mut acc = acc;
            let ghost old_acc = acc@;
            acc.push(f);
            proof {
                assert(funs_view(acc@) =~= funs_view(old_acc).push(f@));
            }
            functions(t, p1, acc)
        },
        None => (acc, p),
    }
}

/// Adds the functions of `fs` to `prog`, one after the other.
fn insert_all(prog: &mut Program, fs: &Vec<Fun>)
    ensures
        final(prog)@ == insert_funs(old(prog)@, funs_view(fs@)),
{
    let ghost m = prog@;
    let mut k: usize = 0;
    assert(funs_view(fs@).take(0) =~= Seq::<FunV>::empty());
    while k < fs.len()
        invariant
            k <= fs.len(),
            prog@ == insert_funs(m, funs_view(fs@).take(k as int)),
        decreases fs.len() - k,
    {
        prog.insert(fs[k].duplicate());
        proof {
            assert(funs_view(fs@).take(k + 1).drop_last() =~= funs_view(fs@).take(k as int));
        }
        k = k + 1;
    }
    assert(funs_view(fs@).take(fs.len() as int) =~= funs_view(fs@));
}

/// `Program ::= Fun* MainFun Fun*`, covering all tokens.
pub fn program_parser(t: &[Token]) -> (r: Option<Program>)
    ensures
        match r {
            Some(prog) => program_at(toks(t)) == Some(prog@),
            None => program_at(toks(t)) is None,
        },
{
    proof {
        assert(funs_view(Seq::<Fun>::empty()) =~= Seq::<FunV>::empty());
    }
    let (before, p1) = functions(t, 0, Vec::new());
    match main_fun_parser(t, p1) {
        Some((main, p2)) => {
            let (after, p3) = functions(t, p2, Vec::new());
            if p3 == t.len() {
                let mut prog = Program::new();
                insert_all(&mut prog, &before);
                prog.insert(main);
                insert_all(&mut prog, &after);
                Some(prog)
            } else {
                None
            }
        },
        None => None,
    }
}

} // verus!
