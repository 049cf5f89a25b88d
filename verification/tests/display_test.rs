use rust_cesk::ast::{Arguments, Expr, Operation, Stmt, Type, UOperation, Value};
use rust_cesk::conf::parts::address::Address;
use rust_cesk::parser::common::statement_parser;
use rust_cesk::parser::lexer::lexer::lex;
use rust_cesk::parser::lexer::token::{TokenLexeme, TokenTag};
use std::rc::Rc;

fn lit(n: i32) -> Rc<Expr> {
    Rc::new(Expr::val(Rc::new(Value::IntV(n))))
}

#[test]
fn values_as_text() {
    assert_eq!(Value::IntV(-5).to_string(), "-5");
    assert_eq!(Value::IntV(i32::MIN).to_string(), "-2147483648");
    assert_eq!(Value::BoolV(true).to_string(), "true");
    assert_eq!(Value::UnitV.to_string(), "()");
    assert_eq!(
        Value::ArrayV { size: 3, start_of_array: Address::new(1) }.to_string(),
        "Array(size: 3)"
    );
    assert_eq!(Value::AddrV(Address::new(70)).to_string(), "Addr(70)");
    assert_eq!(Address::new(1234567).to_string(), "1234567");
}

#[test]
fn operators_and_types_as_text() {
    assert_eq!(Operation::Lte.to_string(), "<=");
    assert_eq!(Operation::Rem.to_string(), "%");
    assert_eq!(UOperation::Not.to_string(), "!");
    assert_eq!(Type::ArrayT(Rc::new(Type::ArrayT(Rc::new(Type::IntT)))).to_string(), "int[][]");
    assert_eq!(Type::UnitT.to_string(), "unit");
}

#[test]
fn statements_as_text() {
    let tokens = lex("{ int x; x = 1 + 2; if (x < 3) { return -x; } else { break; } }");
    let (s, _) = statement_parser(&tokens, 0).unwrap();
    assert_eq!(
        s.to_string(),
        "{int xx = 1 + 2;if(x < 3){ {return -x} } else{ {break;} }}"
    );
    let w = Stmt::while_(lit(1), Rc::new(Stmt::continue_()));
    assert_eq!(w.to_string(), "");
}

#[test]
fn calls_show_their_arguments_as_debug_text() {
    let e = Expr::call_name("f".to_string(), Arguments { args: vec![lit(1)] });
    assert_eq!(e.to_string(), "f (Arguments { args: [Val { value: IntV(1) }] })");
    let a = Expr::array(vec![lit(2)]);
    assert_eq!(a.to_string(), "[[Val { value: IntV(2) }]]");
    let i = Expr::index("a".to_string(), lit(0));
    assert_eq!(i.to_string(), "a[0]");
}

#[test]
fn tokens_as_listing_lines() {
    let toks = lex("x 12\n  ;");
    assert_eq!(toks[0].to_string(), format!("{: <20} | {:<4} | {}", "NAME", 0, "x"));
    assert_eq!(toks[1].to_string(), format!("{: <20} | {:<4} | {}", "INTLIT", 0, "12"));
    assert_eq!(toks[2].to_string(), format!("{: <20} | {:<4} | {}", "SEMICOLON", 1, "NONE"));
    assert_eq!(TokenTag::RETURN.to_string(), "RETURN");
    assert_eq!(TokenLexeme::Unknown('é').to_string(), "é");
    assert_eq!(TokenLexeme::Int(-9).to_string(), "-9");
}
