use rust_cesk::ast::{Expr, Operation, Program, Stmt, Type, Value};
use rust_cesk::parser::lexer::lexer::lex;
use rust_cesk::parser::parse::parse;
use rust_cesk::visit::type_visit::TypeCheck;
use rust_cesk::visit::{expr_to_dot, program_to_dot, SuccessorVisitor, Traverse};
use std::rc::Rc;

fn lit(n: i32) -> Rc<Expr> {
    Rc::new(Expr::val(Rc::new(Value::IntV(n))))
}

#[test]
fn draws_a_binary_expression() {
    let e = Expr::binary_op(lit(1), Operation::Add, lit(2));
    let expected = [
        "digraph AST {\n  node [shape=box];\n",
        "   n0 [label=\"Expr::Binary(Add)\"];\n",
        "   n1 [label=\"Expr::Literal\"];\n   n0 -> n1; \n",
        "   n2 [label=\"Value::IntV(1)\"];\n   n1 -> n2; \n",
        "   n3 [label=\"Operation::Add\"];\n   n0 -> n3; \n",
        "   n4 [label=\"Expr::Literal\"];\n   n0 -> n4; \n",
        "   n5 [label=\"Value::IntV(2)\"];\n   n4 -> n5; \n}\n",
    ]
    .concat();
    assert_eq!(expr_to_dot(&e), expected);
}

#[test]
fn draws_negative_and_large_numbers() {
    let e = Expr::val(Rc::new(Value::IntV(-2147483648)));
    let dot = expr_to_dot(&e);
    assert!(dot.contains("   n1 [label=\"Value::IntV(-2147483648)\"];\n   n0 -> n1; \n"));
    let e = Expr::val(Rc::new(Value::BoolV(false)));
    assert!(expr_to_dot(&e).contains("[label=\"Value::BoolV(false)\"]"));
}

#[test]
fn draws_a_program() {
    let tokens = lex("int main() { return x; }");
    let program = parse(&tokens).unwrap();
    let expected = [
        "digraph AST {\n  node [shape=box];\n",
        "   n0 [label=\"Program\"];\n",
        "   n1 [label=\"Function\"];\n   n0 -> n1; \n",
        "   n2 [label=\"Type::IntT\"];\n   n1 -> n2; \n",
        "   n3 [label=\"Name(main)\"];\n   n1 -> n3; \n",
        "   n4 [label=\"Paramlist\"];\n   n1 -> n4; \n",
        "   n5 [label=\"Stmt::Block\"];\n   n1 -> n5; \n",
        "   n6 [label=\"Stmt::Return\"];\n   n5 -> n6; \n",
        "   n7 [label=\"Expr::Identifier\"];\n   n6 -> n7; \n",
        "   n8 [label=\"Name(x)\"];\n   n7 -> n8; \n}\n",
    ]
    .concat();
    assert_eq!(program_to_dot(&program), expected);
}

#[test]
fn draws_an_empty_program() {
    let program = Program::new();
    assert_eq!(
        program_to_dot(&program),
        "digraph AST {\n  node [shape=box];\n   n0 [label=\"Program\"];\n}\n"
    );
}

#[test]
fn records_successors_of_nested_blocks() {
    let a = Rc::new(Stmt::decl(Type::IntT, "a".to_string(), None));
    let b = Rc::new(Stmt::decl(Type::IntT, "b".to_string(), None));
    let c = Rc::new(Stmt::decl(Type::IntT, "c".to_string(), None));
    let d = Rc::new(Stmt::break_());
    let inner = Rc::new(Stmt::block(vec![b.clone(), c.clone()]));
    let outer = Stmt::block(vec![a.clone(), inner.clone(), d.clone()]);
    let map = SuccessorVisitor::create(&outer);
    assert_eq!(map.get(&a), Some(inner.clone()));
    assert_eq!(map.get(&inner), Some(d.clone()));
    assert_eq!(map.get(&b), Some(c.clone()));
    assert_eq!(map.get(&c), None);
    assert_eq!(map.get(&d), None);
}

#[test]
fn type_check_finds_declared_names() {
    let mut tc = TypeCheck::new();
    assert_eq!(tc.get("x".to_string()), None);
    tc.insert_symbol("x".to_string(), Type::IntT);
    assert_eq!(tc.get("x".to_string()), Some(Type::IntT));
    tc.insert_symbol("x".to_string(), Type::BoolT);
    assert_eq!(tc.get("x".to_string()), Some(Type::BoolT));
    assert_eq!(tc.get("y".to_string()), None);
}

#[test]
fn type_check_walks_declarations_and_parameters() {
    let tokens = lex("int f(bool b) { int y; return 1; } int main() { unit z; return 0; }");
    let program = parse(&tokens).unwrap();
    let mut tc = TypeCheck::new();
    program.traverse(&mut tc);
    assert_eq!(tc.get("b".to_string()), Some(Type::BoolT));
    assert_eq!(tc.get("y".to_string()), Some(Type::IntT));
    assert_eq!(tc.get("z".to_string()), Some(Type::UnitT));
    assert_eq!(tc.get("w".to_string()), None);
}

#[test]
fn records_successors_of_the_blocks_a_for_loop_stands_for() {
    let body = Rc::new(Stmt::block(vec![Rc::new(Stmt::break_())]));
    let init = lit(1);
    let upd = lit(2);
    let f = Stmt::for_d(Some(init.clone()), lit(3), Some(upd.clone()), body.clone());
    let map = SuccessorVisitor::create(&f);
    let init_stmt = Stmt::expr_stmt(init);
    let upd_stmt = Rc::new(Stmt::expr_stmt(upd));
    let looped = Rc::new(Stmt::block(vec![body.clone(), upd_stmt.clone()]));
    let w = Rc::new(Stmt::while_(lit(3), looped));
    assert_eq!(map.get(&init_stmt), Some(w));
    assert_eq!(map.get(&body), Some(upd_stmt));
}
