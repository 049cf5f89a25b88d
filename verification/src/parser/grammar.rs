//! The grammar of the language, stated over token sequences.
//!
//! Each function parses one construct at a position and gives the construct with the
//! position after it, or `None` where the construct does not start there. Alternatives are
//! tried in order and the first that succeeds is taken; repetitions take as many items as
//! parse, and an optional part that fails leaves the position where it was.
use crate::ast::ast::{Operation, Type, UOperation, Value};
use crate::ast::view::{ExprV, FunV, ParamV, StmtV};
use crate::parser::lexer::token::{LexemeV, TokenTag, TokenV};
use std::rc::Rc;
use vstd::prelude::*;

verus! {

pub open spec fn is_tag(t: Seq<TokenV>, p: int, tag: TokenTag) -> bool {
    0 <= p < t.len() && t[p].tag == tag
}

/// A single token of the given tag.
pub open spec fn expect_at(t: Seq<TokenV>, p: int, tag: TokenTag) -> Option<int> {
    if is_tag(t, p, tag) {
        Some(p + 1)
    } else {
        None
    }
}

/// `Id`: a name token carrying its name.
pub open spec fn name_at(t: Seq<TokenV>, p: int) -> Option<(Seq<char>, int)> {
    if is_tag(t, p, TokenTag::NAME) {
        match t[p].lexeme {
            Some(LexemeV::Name(s)) => Some((s, p + 1)),
            _ => None,
        }
    } else {
        None
    }
}

/// `BaseType ::= int | bool | unit`
pub open spec fn scalar_type_at(t: Seq<TokenV>, p: int) -> Option<(Type, int)> {
    if is_tag(t, p, TokenTag::BOOL) {
        Some((Type::BoolT, p + 1))
    } else if is_tag(t, p, TokenTag::INT) {
        Some((Type::IntT, p + 1))
    } else if is_tag(t, p, TokenTag::UNIT) {
        Some((Type::UnitT, p + 1))
    } else {
        None
    }
}

/// The number of `[ ]` suffixes from `p` on, and the position after them.
pub open spec fn array_suffixes(t: Seq<TokenV>, p: int) -> (nat, int)
    decreases t.len() - p,
{
    if 0 <= p && is_tag(t, p, TokenTag::LSQUARE) && is_tag(t, p + 1, TokenTag::RSQUARE) {
        let (n, q) = array_suffixes(t, p + 2);
        (n + 1, q)
    } else {
        (0, p)
    }
}

/// `base` wrapped in `n` array types.
pub open spec fn wrap_array(base: Type, n: nat) -> Type
    decreases n,
{
    if n == 0 {
        base
    } else {
        Type::ArrayT(Rc::new(wrap_array(base, (n - 1) as nat)))
    }
}

/// `Type ::= BaseType ArraySuffix*`
pub open spec fn type_at(t: Seq<TokenV>, p: int) -> Option<(Type, int)> {
    match scalar_type_at(t, p) {
        Some((base, p1)) => {
            let (n, p2) = array_suffixes(t, p1);
            Some((wrap_array(base, n), p2))
        },
        None => None,
    }
}

/// `IntLiteral | true | false`; a literal outside `i32` is no literal.
pub open spec fn bool_int_literal_at(t: Seq<TokenV>, p: int) -> Option<(ExprV, int)> {
    if is_tag(t, p, TokenTag::INTLIT) {
        match t[p].lexeme {
            Some(LexemeV::Int(n)) => if i32::MIN <= n <= i32::MAX {
                Some((ExprV::Val(Value::IntV(n as i32)), p + 1))
            } else {
                None
            },
            _ => None,
        }
    } else if is_tag(t, p, TokenTag::TRUE) {
        Some((ExprV::Val(Value::BoolV(true)), p + 1))
    } else if is_tag(t, p, TokenTag::FALSE) {
        Some((ExprV::Val(Value::BoolV(false)), p + 1))
    } else {
        None
    }
}

/// `( )`
pub open spec fn unit_literal_at(t: Seq<TokenV>, p: int) -> Option<(ExprV, int)> {
    if is_tag(t, p, TokenTag::LPAREN) && is_tag(t, p + 1, TokenTag::RPAREN) {
        Some((ExprV::Val(Value::UnitV), p + 2))
    } else {
        None
    }
}

/// `Val ::= IntLiteral | true | false | ()`
pub open spec fn literal_at(t: Seq<TokenV>, p: int) -> Option<(ExprV, int)> {
    match bool_int_literal_at(t, p) {
        Some(r) => Some(r),
        None => unit_literal_at(t, p),
    }
}

pub open spec fn unary_op_at(t: Seq<TokenV>, p: int) -> Option<UOperation> {
    if is_tag(t, p, TokenTag::NOT) {
        Some(UOperation::Not)
    } else if is_tag(t, p, TokenTag::MINUS) {
        Some(UOperation::Neg)
    } else {
        None
    }
}

pub open spec fn mul_div_op_at(t: Seq<TokenV>, p: int) -> Option<Operation> {
    if is_tag(t, p, TokenTag::TIMES) {
        Some(Operation::Mult)
    } else if is_tag(t, p, TokenTag::DIVIDE) {
        Some(Operation::Div)
    } else if is_tag(t, p, TokenTag::MOD) {
        Some(Operation::Rem)
    } else {
        None
    }
}

pub open spec fn add_sub_op_at(t: Seq<TokenV>, p: int) -> Option<Operation> {
    if is_tag(t, p, TokenTag::PLUS) {
        Some(Operation::Add)
    } else if is_tag(t, p, TokenTag::MINUS) {
        Some(Operation::Sub)
    } else {
        None
    }
}

pub open spec fn relational_op_at(t: Seq<TokenV>, p: int) -> Option<Operation> {
    if is_tag(t, p, TokenTag::LT) {
        Some(Operation::Lt)
    } else if is_tag(t, p, TokenTag::GT) {
        Some(Operation::Gt)
    } else if is_tag(t, p, TokenTag::LEQ) {
        Some(Operation::Lte)
    } else if is_tag(t, p, TokenTag::GEQ) {
        Some(Operation::Gte)
    } else {
        None
    }
}

pub open spec fn equality_op_at(t: Seq<TokenV>, p: int) -> Option<Operation> {
    if is_tag(t, p, TokenTag::EQEQ) {
        Some(Operation::Eq)
    } else if is_tag(t, p, TokenTag::NOTEQ) {
        Some(Operation::Neq)
    } else {
        None
    }
}

/// Positions only move forward through the tokens; the parsers below check it where they
/// go on from a position that another parser gave, which keeps the definitions evidently
/// well-founded.
pub open spec fn forward(t: Seq<TokenV>, p: int, q: int) -> bool {
    p <= q <= t.len()
}

pub open spec fn binary(l: ExprV, op: Operation, r: ExprV) -> ExprV {
    ExprV::BinaryOp(Box::new(l), op, Box::new(r))
}

/// An expression, at its lowest precedence: `rel (('==' | '!=') rel)?`; equality does
/// not chain.
pub open spec fn expr_at(t: Seq<TokenV>, p: int) -> Option<(ExprV, int)>
    decreases t.len() - p, 10nat,
{
    match rel_at(t, p) {
        Some((l, p1)) => match equality_op_at(t, p1) {
            Some(op) => match if p <= p1 {
                rel_at(t, p1 + 1)
            } else {
                None
            } {
                Some((r, p2)) => Some((binary(l, op, r), p2)),
                None => Some((l, p1)),
            },
            None => Some((l, p1)),
        },
        None => None,
    }
}

/// `add (('<' | '>' | '<=' | '>=') add)?`; comparison does not chain.
pub open spec fn rel_at(t: Seq<TokenV>, p: int) -> Option<(ExprV, int)>
    decreases t.len() - p, 9nat,
{
    match add_at(t, p) {
        Some((l, p1)) => match relational_op_at(t, p1) {
            Some(op) => match if p <= p1 {
                add_at(t, p1 + 1)
            } else {
                None
            } {
                Some((r, p2)) => Some((binary(l, op, r), p2)),
                None => Some((l, p1)),
            },
            None => Some((l, p1)),
        },
        None => None,
    }
}

/// `mul (('+' | '-') mul)*`, grouping to the left.
pub open spec fn add_at(t: Seq<TokenV>, p: int) -> Option<(ExprV, int)>
    decreases t.len() - p, 8nat,
{
    match mul_at(t, p) {
        Some((l, p1)) => if forward(t, p, p1) {
            Some(add_tail_at(t, p1, l))
        } else {
            None
        },
        None => None,
    }
}

pub open spec fn add_tail_at(t: Seq<TokenV>, p: int, acc: ExprV) -> (ExprV, int)
    decreases t.len() - p, 7nat,
{
    match add_sub_op_at(t, p) {
        Some(op) => match mul_at(t, p + 1) {
            Some((r, p2)) => if forward(t, p + 1, p2) {
                add_tail_at(t, p2, binary(acc, op, r))
            } else {
                (acc, p)
            },
            None => (acc, p),
        },
        None => (acc, p),
    }
}

/// `unary (('*' | '/' | '%') unary)*`, grouping to the left.
pub open spec fn mul_at(t: Seq<TokenV>, p: int) -> Option<(ExprV, int)>
    decreases t.len() - p, 6nat,
{
    match unary_at(t, p) {
        Some((l, p1)) => if forward(t, p, p1) {
            Some(mul_tail_at(t, p1, l))
        } else {
            None
        },
        None => None,
    }
}

pub open spec fn mul_tail_at(t: Seq<TokenV>, p: int, acc: ExprV) -> (ExprV, int)
    decreases t.len() - p, 5nat,
{
    match mul_div_op_at(t, p) {
        Some(op) => match unary_at(t, p + 1) {
            Some((r, p2)) => if forward(t, p + 1, p2) {
                mul_tail_at(t, p2, binary(acc, op, r))
            } else {
                (acc, p)
            },
            None => (acc, p),
        },
        None => (acc, p),
    }
}

/// Additive operators group to the left: where terms `x`, `y` and `z` stand one after the
/// other, joined by additive operators `o1` and `o2`, and no further additive operator
/// follows, the sum is `(x o1 y) o2 z`, and so is the whole expression where no
/// comparison follows either.
pub proof fn law_additive_groups_left(
    t: Seq<TokenV>,
    p: int,
    x: ExprV,
    o1: Operation,
    y: ExprV,
    o2: Operation,
    z: ExprV,
    p1: int,
    p2: int,
    p3: int,
)
    requires
        mul_at(t, p) == Some((x, p1)),
        add_sub_op_at(t, p1) == Some(o1),
        mul_at(t, p1 + 1) == Some((y, p2)),
        add_sub_op_at(t, p2) == Some(o2),
        mul_at(t, p2 + 1) == Some((z, p3)),
        add_sub_op_at(t, p3) is None,
        p <= p1 < p2 < p3 <= t.len(),
    ensures
        add_at(t, p) == Some((binary(binary(x, o1, y), o2, z), p3)),
        relational_op_at(t, p3) is None && equality_op_at(t, p3) is None ==> expr_at(t, p) == Some(
            (binary(binary(x, o1, y), o2, z), p3),
        ),
{
    let xy = binary(x, o1, y);
    let xyz = binary(xy, o2, z);
    assert(add_tail_at(t, p3, xyz) == (xyz, p3));
    assert(add_tail_at(t, p2, xy) == add_tail_at(t, p3, xyz));
    assert(add_tail_at(t, p1, x) == add_tail_at(t, p2, xy));
}

/// Multiplicative operators group to the left: where unary terms `x`, `y` and `z` stand one
/// after the other, joined by multiplicative operators `o1` and `o2`, and no further
/// multiplicative operator follows, the term is `(x o1 y) o2 z`.
pub proof fn law_multiplicative_groups_left(
    t: Seq<TokenV>,
    p: int,
    x: ExprV,
    o1: Operation,
    y: ExprV,
    o2: Operation,
    z: ExprV,
    p1: int,
    p2: int,
    p3: int,
)
    requires
        unary_at(t, p) == Some((x, p1)),
        mul_div_op_at(t, p1) == Some(o1),
        unary_at(t, p1 + 1) == Some((y, p2)),
        mul_div_op_at(t, p2) == Some(o2),
        unary_at(t, p2 + 1) == Some((z, p3)),
        mul_div_op_at(t, p3) is None,
        p <= p1 < p2 < p3 <= t.len(),
    ensures
        mul_at(t, p) == Some((binary(binary(x, o1, y), o2, z), p3)),
{
    let xy = binary(x, o1, y);
    let xyz = binary(xy, o2, z);
    assert(mul_tail_at(t, p3, xyz) == (xyz, p3));
    assert(mul_tail_at(t, p2, xy) == mul_tail_at(t, p3, xyz));
    assert(mul_tail_at(t, p1, x) == mul_tail_at(t, p2, xy));
}

/// `('!' | '-') unary | atom`
pub open spec fn unary_at(t: Seq<TokenV>, p: int) -> Option<(ExprV, int)>
    decreases t.len() - p, 4nat,
{
    match unary_op_at(t, p) {
        Some(op) => match unary_at(t, p + 1) {
            Some((e, p1)) => Some((ExprV::UnaryOp(op, Box::new(e)), p1)),
            None => None,
        },
        None => atom_at(t, p),
    }
}

/// `Val | Id Arguments | Id [ Expr ] | Id | [ ArgumentList? ] | ( Expr )`
pub open spec fn atom_at(t: Seq<TokenV>, p: int) -> Option<(ExprV, int)>
    decreases t.len() - p, 3nat,
{
    match literal_at(t, p) {
        Some(r) => Some(r),
        None => match name_at(t, p) {
            Some((name, p1)) => {
                let call = match arguments_at(t, p1) {
                    Some((args, p2)) => Some((ExprV::CallName(name, args), p2)),
                    None => None,
                };
                let index = if is_tag(t, p1, TokenTag::LSQUARE) {
                    match expr_at(t, p1 + 1) {
                        Some((i, p2)) => if is_tag(t, p2, TokenTag::RSQUARE) {
                            Some((ExprV::Index(name, Box::new(i)), p2 + 1))
                        } else {
                            None
                        },
                        None => None,
                    }
                } else {
                    None
                };
                match call {
                    Some(r) => Some(r),
                    None => match index {
                        Some(r) => Some(r),
                        None => Some((ExprV::Var(name), p1)),
                    },
                }
            },
            None => if is_tag(t, p, TokenTag::LSQUARE) {
                match expr_list_at(t, p + 1) {
                    Some((elems, p2)) => if is_tag(t, p2, TokenTag::RSQUARE) {
                        Some((ExprV::Array(elems), p2 + 1))
                    } else {
                        None
                    },
                    None => None,
                }
            } else if is_tag(t, p, TokenTag::LPAREN) {
                match expr_at(t, p + 1) {
                    Some((e, p2)) => if is_tag(t, p2, TokenTag::RPAREN) {
                        Some((e, p2 + 1))
                    } else {
                        None
                    },
                    None => None,
                }
            } else {
                None
            },
        },
    }
}

/// `Arguments ::= ( ArgumentList? )`
pub open spec fn arguments_at(t: Seq<TokenV>, p: int) -> Option<(Seq<ExprV>, int)>
    decreases t.len() - p, 13nat,
{
    if is_tag(t, p, TokenTag::LPAREN) {
        match expr_list_at(t, p + 1) {
            Some((args, p2)) => if is_tag(t, p2, TokenTag::RPAREN) {
                Some((args, p2 + 1))
            } else {
                None
            },
            None => None,
        }
    } else {
        None
    }
}

/// `(Expr (',' Expr)*)?`: possibly empty, no trailing comma taken.
pub open spec fn expr_list_at(t: Seq<TokenV>, p: int) -> Option<(Seq<ExprV>, int)>
    decreases t.len() - p, 12nat,
{
    match expr_at(t, p) {
        Some((e, p1)) => if forward(t, p, p1) {
            Some(expr_list_tail_at(t, p1, seq![e]))
        } else {
            None
        },
        None => Some((Seq::empty(), p)),
    }
}

pub open spec fn expr_list_tail_at(t: Seq<TokenV>, p: int, acc: Seq<ExprV>) -> (Seq<ExprV>, int)
    decreases t.len() - p, 11nat,
{
    if is_tag(t, p, TokenTag::COMMA) {
        match expr_at(t, p + 1) {
            Some((e, p2)) => if forward(t, p + 1, p2) {
                expr_list_tail_at(t, p2, acc.push(e))
            } else {
                (acc, p)
            },
            None => (acc, p),
        }
    } else {
        (acc, p)
    }
}

/// An optional expression.
pub open spec fn opt_expr_at(t: Seq<TokenV>, p: int) -> (Option<Box<ExprV>>, int) {
    match expr_at(t, p) {
        Some((e, p1)) => (Some(Box::new(e)), p1),
        None => (None, p),
    }
}

/// `AssignTarget ::= Id | Id [ Expr ]`
pub open spec fn assign_target_at(t: Seq<TokenV>, p: int) -> Option<(ExprV, int)> {
    match name_at(t, p) {
        Some((name, p1)) => {
            let index = if is_tag(t, p1, TokenTag::LSQUARE) {
                match expr_at(t, p1 + 1) {
                    Some((i, p2)) => if is_tag(t, p2, TokenTag::RSQUARE) {
                        Some((ExprV::Index(name, Box::new(i)), p2 + 1))
                    } else {
                        None
                    },
                    None => None,
                }
            } else {
                None
            };
            match index {
                Some(r) => Some(r),
                None => Some((ExprV::Var(name), p1)),
            }
        },
        None => None,
    }
}

/// `Statement ::= ForD | If | While | Assign | DeclD | Return | Block | continue ; |
/// break ; | ExprStmt`, the first that parses.
pub open spec fn stmt_at(t: Seq<TokenV>, p: int) -> Option<(StmtV, int)>
    decreases t.len() - p, 3nat,
{
    match for_d_at(t, p) {
        Some(r) => Some(r),
        None => match if_at(t, p) {
            Some(r) => Some(r),
            None => match while_at(t, p) {
                Some(r) => Some(r),
                None => match assign_at(t, p) {
                    Some(r) => Some(r),
                    None => match decl_at(t, p) {
                        Some(r) => Some(r),
                        None => match return_at(t, p) {
                            Some(r) => Some(r),
                            None => match block_at(t, p) {
                                Some(r) => Some(r),
                                None => match continue_at(t, p) {
                                    Some(r) => Some(r),
                                    None => match break_at(t, p) {
                                        Some(r) => Some(r),
                                        None => expr_stmt_at(t, p),
                                    },
                                },
                            },
                        },
                    },
                },
            },
        },
    }
}

/// `ForD ::= for ( Expr? ; Expr ; Expr? ) Block`
pub open spec fn for_d_at(t: Seq<TokenV>, p: int) -> Option<(StmtV, int)>
    decreases t.len() - p, 2nat,
{
    if is_tag(t, p, TokenTag::FOR) && is_tag(t, p + 1, TokenTag::LPAREN) {
        let (init, p1) = opt_expr_at(t, p + 2);
        if is_tag(t, p1, TokenTag::SEMICOLON) {
            match expr_at(t, p1 + 1) {
                Some((cond, p2)) => if is_tag(t, p2, TokenTag::SEMICOLON) {
                    let (update, p3) = opt_expr_at(t, p2 + 1);
                    if is_tag(t, p3, TokenTag::RPAREN) && p3 + 1 > p {
                        match block_at(t, p3 + 1) {
                            Some((body, p4)) => Some(
                                (StmtV::ForD(init, Box::new(cond), update, Box::new(body)), p4),
                            ),
                            None => None,
                        }
                    } else {
                        None
                    }
                } else {
                    None
                },
                None => None,
            }
        } else {
            None
        }
    } else {
        None
    }
}

/// `If ::= if ( Expr ) Block (else Block)?`
pub open spec fn if_at(t: Seq<TokenV>, p: int) -> Option<(StmtV, int)>
    decreases t.len() - p, 2nat,
{
    if is_tag(t, p, TokenTag::IF) && is_tag(t, p + 1, TokenTag::LPAREN) {
        match expr_at(t, p + 2) {
            Some((cond, p1)) => if is_tag(t, p1, TokenTag::RPAREN) && p1 + 1 > p {
                match block_at(t, p1 + 1) {
                    Some((then_b, p2)) => {
                        let else_b = if is_tag(t, p2, TokenTag::ELSE) && p2 + 1 > p {
                            block_at(t, p2 + 1)
                        } else {
                            None
                        };
                        match else_b {
                            Some((e, p3)) => Some(
                                (
                                    StmtV::If(
                                        Box::new(cond),
                                        Box::new(then_b),
                                        Some(Box::new(e)),
                                    ),
                                    p3,
                                ),
                            ),
                            None => Some(
                                (StmtV::If(Box::new(cond), Box::new(then_b), None), p2),
                            ),
                        }
                    },
                    None => None,
                }
            } else {
                None
            },
            None => None,
        }
    } else {
        None
    }
}

/// `While ::= while ( Expr ) Block`
pub open spec fn while_at(t: Seq<TokenV>, p: int) -> Option<(StmtV, int)>
    decreases t.len() - p, 2nat,
{
    if is_tag(t, p, TokenTag::WHILE) && is_tag(t, p + 1, TokenTag::LPAREN) {
        match expr_at(t, p + 2) {
            Some((cond, p1)) => if is_tag(t, p1, TokenTag::RPAREN) && p1 + 1 > p {
                match block_at(t, p1 + 1) {
                    Some((body, p2)) => Some((StmtV::While(Box::new(cond), Box::new(body)), p2)),
                    None => None,
                }
            } else {
                None
            },
            None => None,
        }
    } else {
        None
    }
}

/// `Assign ::= AssignTarget = Expr ;`
pub open spec fn assign_at(t: Seq<TokenV>, p: int) -> Option<(StmtV, int)> {
    match assign_target_at(t, p) {
        Some((lhs, p1)) => if is_tag(t, p1, TokenTag::EQ) {
            match expr_at(t, p1 + 1) {
                Some((rhs, p2)) => if is_tag(t, p2, TokenTag::SEMICOLON) {
                    Some((StmtV::Assign(Box::new(lhs), Box::new(rhs)), p2 + 1))
                } else {
                    None
                },
                None => None,
            }
        } else {
            None
        },
        None => None,
    }
}

/// `DeclD ::= Type Id (= Expr)? ;`
pub open spec fn decl_at(t: Seq<TokenV>, p: int) -> Option<(StmtV, int)> {
    match type_at(t, p) {
        Some((typ, p1)) => match name_at(t, p1) {
            Some((name, p2)) => {
                let init = if is_tag(t, p2, TokenTag::EQ) {
                    match expr_at(t, p2 + 1) {
                        Some((e, p3)) => Some((e, p3)),
                        None => None,
                    }
                } else {
                    None
                };
                let (expr, p3) = match init {
                    Some((e, p3)) => (Some(Box::new(e)), p3),
                    None => (None, p2),
                };
                if is_tag(t, p3, TokenTag::SEMICOLON) {
                    Some((StmtV::Decl(typ, name, expr), p3 + 1))
                } else {
                    None
                }
            },
            None => None,
        },
        None => None,
    }
}

/// `Return ::= return Expr ;`
pub open spec fn return_at(t: Seq<TokenV>, p: int) -> Option<(StmtV, int)> {
    if is_tag(t, p, TokenTag::RETURN) {
        match expr_at(t, p + 1) {
            Some((e, p1)) => if is_tag(t, p1, TokenTag::SEMICOLON) {
                Some((StmtV::Return(Box::new(e)), p1 + 1))
            } else {
                None
            },
            None => None,
        }
    } else {
        None
    }
}

/// `Block ::= { Statement* }`
pub open spec fn block_at(t: Seq<TokenV>, p: int) -> Option<(StmtV, int)>
    decreases t.len() - p, 1nat,
{
    if is_tag(t, p, TokenTag::LCURLY) {
        let (stmts, p1) = stmts_from(t, p + 1, Seq::empty());
        if is_tag(t, p1, TokenTag::RCURLY) {
            Some((StmtV::Block(stmts), p1 + 1))
        } else {
            None
        }
    } else {
        None
    }
}

/// As many statements as parse from `p` on, appended to `acc`.
pub open spec fn stmts_from(t: Seq<TokenV>, p: int, acc: Seq<StmtV>) -> (Seq<StmtV>, int)
    decreases t.len() - p, 4nat,
{
    match stmt_at(t, p) {
        Some((s, p1)) => if forward(t, p + 1, p1) {
            stmts_from(t, p1, acc.push(s))
        } else {
            (acc, p)
        },
        None => (acc, p),
    }
}

/// `continue ;`
pub open spec fn continue_at(t: Seq<TokenV>, p: int) -> Option<(StmtV, int)> {
    if is_tag(t, p, TokenTag::CONTINUE) && is_tag(t, p + 1, TokenTag::SEMICOLON) {
        Some((StmtV::Continue, p + 2))
    } else {
        None
    }
}

/// `break ;`
pub open spec fn break_at(t: Seq<TokenV>, p: int) -> Option<(StmtV, int)> {
    if is_tag(t, p, TokenTag::BREAK) && is_tag(t, p + 1, TokenTag::SEMICOLON) {
        Some((StmtV::Break, p + 2))
    } else {
        None
    }
}

/// `ExprStmt ::= Expr ;`
pub open spec fn expr_stmt_at(t: Seq<TokenV>, p: int) -> Option<(StmtV, int)> {
    match expr_at(t, p) {
        Some((e, p1)) => if is_tag(t, p1, TokenTag::SEMICOLON) {
            Some((StmtV::ExprStmt(Box::new(e)), p1 + 1))
        } else {
            None
        },
        None => None,
    }
}

/// `Parameter ::= Type Id`
pub open spec fn param_at(t: Seq<TokenV>, p: int) -> Option<(ParamV, int)> {
    match type_at(t, p) {
        Some((typ, p1)) => match name_at(t, p1) {
            Some((name, p2)) => Some((ParamV { typ, name }, p2)),
            None => None,
        },
        None => None,
    }
}

/// `ParameterList ::= Parameter (, Parameter)*`
pub open spec fn param_list_at(t: Seq<TokenV>, p: int) -> Option<(Seq<ParamV>, int)> {
    match param_at(t, p) {
        Some((x, p1)) => Some(param_list_tail_at(t, p1, seq![x])),
        None => None,
    }
}

pub open spec fn param_list_tail_at(t: Seq<TokenV>, p: int, acc: Seq<ParamV>) -> (Seq<ParamV>, int)
    decreases t.len() - p,
{
    if is_tag(t, p, TokenTag::COMMA) {
        match param_at(t, p + 1) {
            Some((x, p2)) => if forward(t, p + 1, p2) {
                param_list_tail_at(t, p2, acc.push(x))
            } else {
                (acc, p)
            },
            None => (acc, p),
        }
    } else {
        (acc, p)
    }
}

/// `Parameters ::= ( ParameterList? )`
pub open spec fn params_at(t: Seq<TokenV>, p: int) -> Option<(Seq<ParamV>, int)> {
    if is_tag(t, p, TokenTag::LPAREN) {
        let (ps, p1) = match param_list_at(t, p + 1) {
            Some((ps, p1)) => (ps, p1),
            None => (Seq::empty(), p + 1),
        };
        if is_tag(t, p1, TokenTag::RPAREN) {
            Some((ps, p1 + 1))
        } else {
            None
        }
    } else {
        None
    }
}

/// `Fun ::= Type Id Parameters Block`
pub open spec fn fun_at(t: Seq<TokenV>, p: int) -> Option<(FunV, int)> {
    match type_at(t, p) {
        Some((typ, p1)) => match name_at(t, p1) {
            Some((name, p2)) => match params_at(t, p2) {
                Some((params, p3)) => match block_at(t, p3) {
                    Some((body, p4)) => Some((FunV { typ, name, params, body }, p4)),
                    None => None,
                },
                None => None,
            },
            None => None,
        },
        None => None,
    }
}

pub open spec fn main_name() -> Seq<char> {
    seq!['m', 'a', 'i', 'n']
}

/// `MainFun ::= Type main ( ) Block`
pub open spec fn main_fun_at(t: Seq<TokenV>, p: int) -> Option<(FunV, int)> {
    match type_at(t, p) {
        Some((typ, p1)) => if is_tag(t, p1, TokenTag::MAIN) && is_tag(t, p1 + 1, TokenTag::LPAREN)
            && is_tag(t, p1 + 2, TokenTag::RPAREN) {
            match block_at(t, p1 + 3) {
                Some((body, p2)) => Some(
                    (FunV { typ, name: main_name(), params: Seq::empty(), body }, p2),
                ),
                None => None,
            }
        } else {
            None
        },
        None => None,
    }
}

/// As many functions as parse from `p` on, appended to `acc`.
pub open spec fn funs_from(t: Seq<TokenV>, p: int, acc: Seq<FunV>) -> (Seq<FunV>, int)
    decreases t.len() - p,
{
    match fun_at(t, p) {
        Some((f, p1)) => if forward(t, p + 1, p1) {
            funs_from(t, p1, acc.push(f))
        } else {
            (acc, p)
        },
        None => (acc, p),
    }
}

/// Lexicographic order on names, by character code.
pub open spec fn name_lt(a: Seq<char>, b: Seq<char>) -> bool
    decreases a.len(),
{
    if a.len() == 0 {
        b.len() > 0
    } else if b.len() == 0 {
        false
    } else if a[0] != b[0] {
        (a[0] as u32) < (b[0] as u32)
    } else {
        name_lt(a.drop_first(), b.drop_first())
    }
}

/// The functions of a program, ordered by name, after `f` is added; a function of the
/// same name is replaced.
pub open spec fn insert_fun(m: Seq<FunV>, f: FunV) -> Seq<FunV>
    decreases m.len(),
{
    if m.len() == 0 {
        seq![f]
    } else if m[0].name == f.name {
        seq![f] + m.drop_first()
    } else if name_lt(f.name, m[0].name) {
        seq![f] + m
    } else {
        seq![m[0]] + insert_fun(m.drop_first(), f)
    }
}

/// The functions `fs` added one after the other.
pub open spec fn insert_funs(m: Seq<FunV>, fs: Seq<FunV>) -> Seq<FunV>
    decreases fs.len(),
{
    if fs.len() == 0 {
        m
    } else {
        insert_fun(insert_funs(m, fs.drop_last()), fs.last())
    }
}

/// `Program ::= Fun* MainFun Fun*`, covering all tokens; the functions in name order, a
/// later one replacing an earlier one of the same name.
pub open spec fn program_at(t: Seq<TokenV>) -> Option<Seq<FunV>> {
    let (before, p1) = funs_from(t, 0, Seq::empty());
    match main_fun_at(t, p1) {
        Some((main, p2)) => {
            let (after, p3) = funs_from(t, p2, Seq::empty());
            if p3 == t.len() {
                Some(insert_funs(insert_fun(insert_funs(Seq::empty(), before), main), after))
            } else {
                None
            }
        },
        None => None,
    }
}

} // verus!
