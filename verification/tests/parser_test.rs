use rust_cesk::ast::{Expr, Operation, Stmt, Type, UOperation, Value};
use rust_cesk::parser::common::{
    expression_parser, statement_parser, type_parser, unit_literal_parser,
};
use rust_cesk::parser::lexer::lexer::lex;
use rust_cesk::parser::lexer::token::Token;
use rust_cesk::parser::parse::parse;

fn tokens(src: &str) -> Vec<Token> {
    lex(src)
}

/// Runs a parser from the first token and checks that it consumed every token.
fn parse_all<O>(parser: fn(&[Token], usize) -> Option<(O, usize)>, tokens: &[Token]) -> O {
    let (out, end) = parser(tokens, 0).unwrap();
    assert_eq!(end, tokens.len());
    out
}

#[test]
fn parses_unit_type_and_unit_literal_separately() {
    let tokens = tokens("unit");
    assert_eq!(parse_all(type_parser, &tokens), Type::UnitT);

    let tokens = self::tokens("()");
    let expr = parse_all(unit_literal_parser, &tokens);
    assert_eq!(
        expr,
        Expr::Val {
            value: Value::UnitV.into()
        }
    );
}

#[test]
fn parses_array_types() {
    let tokens = tokens("int[][]");
    assert_eq!(
        parse_all(type_parser, &tokens),
        Type::ArrayT(Type::ArrayT(Type::IntT.into()).into())
    );
}

#[test]
fn parses_expression_precedence() {
    let tokens = tokens("1 + 2 * 3");
    let expr = parse_all(expression_parser, &tokens);

    assert_eq!(
        *expr,
        Expr::BinaryOp {
            lhs: Expr::Val {
                value: Value::IntV(1).into()
            }
            .into(),
            op: Operation::Add,
            rhs: Expr::BinaryOp {
                lhs: Expr::Val {
                    value: Value::IntV(2).into()
                }
                .into(),
                op: Operation::Mult,
                rhs: Expr::Val {
                    value: Value::IntV(3).into()
                }
                .into(),
            }
            .into(),
        }
    );
}

#[test]
fn parses_unary_expression() {
    let tokens = tokens("!false");
    let expr = parse_all(expression_parser, &tokens);

    assert_eq!(
        *expr,
        Expr::UnaryOp {
            op: UOperation::Not,
            expr: Expr::Val {
                value: Value::BoolV(false).into()
            }
            .into(),
        }
    );
}

#[test]
fn parses_declaration_statement_with_initializer() {
    let tokens = tokens("int x = 42;");
    let stmt = parse_all(statement_parser, &tokens);

    assert_eq!(
        stmt,
        Stmt::Decl {
            typ: Type::IntT,
            name: "x".to_string(),
            expr: Some(
                Expr::Val {
                    value: Value::IntV(42).into()
                }
                .into()
            ),
        }
    );
}

#[test]
fn parses_minimal_program_with_main() {
    let tokens = tokens("int main() { return 2; }");
    let program = parse(&tokens).unwrap();

    let main = program.get("main").unwrap();
    assert_eq!(main.typ, Type::IntT);
    assert_eq!(main.params.params, Vec::new());
    assert_eq!(
        *main.body,
        Stmt::Block {
            stmts: vec![Stmt::Return {
                expr: Expr::Val {
                    value: Value::IntV(2).into()
                }
                .into()
            }
            .into()]
        }
    );
}
