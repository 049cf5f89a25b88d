use rust_cesk::ast::{Arguments, Expr, Fun, ParamList, Stmt, Type, Value};
use rust_cesk::conf::conf::Config;
use rust_cesk::conf::parts::address::Address;
use rust_cesk::conf::semantics::Halt;
use rust_cesk::conf::ProgramHandler;
use rust_cesk::parser::lexer::lexer::lex;
use rust_cesk::parser::parse::parse;
use std::rc::Rc;

fn run_config(mut config: Config, handler: &mut ProgramHandler, limit: usize) -> Option<Halt> {
    for _ in 0..limit {
        match config.try_next(handler) {
            Ok(next) => config = next,
            Err(halt) => return Some(halt),
        }
    }
    None
}

fn run(src: &str, limit: usize) -> Option<Halt> {
    let tokens = lex(src);
    let mut program = parse(&tokens).unwrap();
    let entry = program.get_entry().unwrap();
    let mut handler = ProgramHandler::from_program(program);
    run_config(Config::from_stmt(&entry), &mut handler, limit)
}

fn lit(n: i32) -> Rc<Expr> {
    Rc::new(Expr::val(Rc::new(Value::IntV(n))))
}

#[test]
fn reports_an_unknown_function() {
    assert_eq!(run("int main() { return f(); }", 100), Some(Halt::UnknownFunction));
}

#[test]
fn reports_too_many_arguments() {
    let src = "int f(int a) { return a; } int main() { return f(1, 2); }";
    assert_eq!(run(src, 100), Some(Halt::ArgumentCountMismatch));
}

#[test]
fn reports_an_argument_of_the_wrong_type() {
    let src = "int f(bool a) { return 1; } int main() { return f(1); }";
    assert_eq!(run(src, 100), Some(Halt::ArgumentTypeMismatch));
}

#[test]
fn reports_a_return_value_of_the_wrong_type() {
    let src = "bool f() { return 1; } int main() { return f(); }";
    assert_eq!(run(src, 100), Some(Halt::ReturnTypeMismatch));
}

#[test]
fn reports_a_condition_that_is_no_boolean() {
    let src = "int main() { if (1) { return 1; } return 2; }";
    assert_eq!(run(src, 100), Some(Halt::NonBoolean));
}

#[test]
fn reports_a_break_outside_a_loop() {
    assert_eq!(run("int main() { break; }", 100), Some(Halt::UnexpectedKont));
}

#[test]
fn reports_an_array_as_exit_value() {
    assert_eq!(run("int main() { return [1, 2]; }", 100), Some(Halt::UntypedValue));
}

#[test]
fn negation_and_not() {
    assert_eq!(run("int main() { return -5 + 2; }", 100), Some(Halt::Exited(Value::IntV(-3))));
    assert_eq!(run("int main() { if (!false) { return 1; } return 0; }", 100), Some(Halt::Exited(Value::IntV(1))));
}

#[test]
fn reports_an_overflow() {
    assert_eq!(run("int main() { return 2147483647 + 1; }", 100), Some(Halt::OperationFailed));
}

#[test]
fn a_for_loop_that_breaks_at_once_ends() {
    let body = Rc::new(Stmt::block(vec![Rc::new(Stmt::break_())]));
    let yes = Rc::new(Expr::val(Rc::new(Value::BoolV(true))));
    let s = Rc::new(Stmt::for_d(Some(lit(1)), yes, Some(lit(2)), body));
    let mut handler = ProgramHandler::new();
    assert_eq!(
        run_config(Config::from_stmt(&s), &mut handler, 100),
        Some(Halt::Exited(Value::IntV(0)))
    );
}

#[test]
fn reports_a_call_through_a_reference() {
    let fun = Rc::new(Fun {
        typ: Type::IntT,
        name: "f".to_string(),
        params: Rc::new(ParamList { params: vec![] }),
        body: Rc::new(Stmt::block(vec![])),
    });
    let e = Expr::call_ref(fun, Arguments { args: vec![] });
    let mut handler = ProgramHandler::new();
    assert_eq!(run_config(Config::from_expr(e), &mut handler, 10), Some(Halt::CallRefUnsupported));
}

#[test]
fn reports_an_assignment_to_a_value() {
    let s = Rc::new(Stmt::assign(lit(1), lit(2)));
    let mut handler = ProgramHandler::new();
    assert_eq!(run_config(Config::from_stmt(&s), &mut handler, 10), Some(Halt::NotAnAddress));
}

#[test]
fn reports_an_address_outside_the_store() {
    let e = Expr::val(Rc::new(Value::AddrV(Address::new(5))));
    let mut handler = ProgramHandler::new();
    assert_eq!(run_config(Config::from_expr(e), &mut handler, 10), Some(Halt::AddressNotFound));
}

#[test]
fn evaluates_an_expression_to_its_exit_code() {
    let e = Expr::binary_op(lit(6), rust_cesk::ast::Operation::Mult, lit(7));
    let mut handler = ProgramHandler::new();
    assert_eq!(run_config(Config::from_expr(e), &mut handler, 10), Some(Halt::Exited(Value::IntV(42))));
}
