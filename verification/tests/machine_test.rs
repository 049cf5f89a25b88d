use rust_cesk::ast::Value;
use rust_cesk::conf::conf::Config;
use rust_cesk::conf::semantics::Halt;
use rust_cesk::conf::ProgramHandler;
use rust_cesk::parser::lexer::lexer::lex;
use rust_cesk::parser::parse::parse;

/// Runs the program until the machine stops, at most `limit` steps.
fn run(src: &str, limit: usize) -> Option<Halt> {
    let tokens = lex(src);
    let mut program = parse(&tokens).unwrap();
    let entry = program.get_entry().unwrap();
    let mut handler = ProgramHandler::from_program(program);
    let mut config = Config::from_stmt(&entry);
    for _ in 0..limit {
        match config.try_next(&mut handler) {
            Ok(next) => config = next,
            Err(halt) => return Some(halt),
        }
    }
    None
}

#[test]
fn returns_a_literal_from_main() {
    assert_eq!(
        run("int main() { return 2; }", 100),
        Some(Halt::Exited(Value::IntV(2)))
    );
}

#[test]
fn reads_back_an_assigned_variable() {
    assert_eq!(
        run("int main() { int x; x = 20; return x; }", 100),
        Some(Halt::Exited(Value::IntV(20)))
    );
}

#[test]
fn evaluates_arithmetic_with_precedence() {
    assert_eq!(
        run("int main() { return 1 + 2 * 3 - 10 / 3; }", 100),
        Some(Halt::Exited(Value::IntV(4)))
    );
}

#[test]
fn calls_a_function_with_arguments() {
    let src = "int add(int a, int b) { return a + b; } int main() { return add(1, 2); }";
    assert_eq!(run(src, 200), Some(Halt::Exited(Value::IntV(3))));
}

#[test]
fn takes_the_else_branch_of_a_false_condition() {
    let src = "int main() { if (1 > 2) { return 1; } else { return 7; } }";
    assert_eq!(run(src, 100), Some(Halt::Exited(Value::IntV(7))));
}

#[test]
fn leaves_a_loop_by_break() {
    let src = "int main() { int x = 0; while (true) { x = x + 1; if (x == 3) { break; } } return x; }";
    assert_eq!(run(src, 1000), Some(Halt::Exited(Value::IntV(3))));
}

#[test]
fn reports_a_division_by_zero() {
    assert_eq!(
        run("int main() { return 1 / 0; }", 100),
        Some(Halt::OperationFailed)
    );
}

#[test]
fn reports_an_undefined_variable() {
    assert_eq!(
        run("int main() { return y; }", 100),
        Some(Halt::UndefinedVariable)
    );
}

#[test]
fn reports_a_unit_exit_value() {
    assert_eq!(
        run("unit main() { return (); }", 100),
        Some(Halt::InvalidExitType)
    );
}

#[test]
fn main_without_return_exits_with_zero() {
    assert_eq!(run("int main() { int x; }", 100), Some(Halt::Exited(Value::IntV(0))));
}

#[test]
fn a_declaration_assigns_its_initializer() {
    assert_eq!(
        run("int main() { int x = 5; return x; }", 100),
        Some(Halt::Exited(Value::IntV(5)))
    );
    assert_eq!(
        run("int main() { int x = 2; int y = x * 3; return y; }", 100),
        Some(Halt::Exited(Value::IntV(6)))
    );
}

#[test]
fn a_loop_body_goes_back_to_the_condition() {
    let src = "int main() { int x = 0; while (x < 5) { x = x + 1; } return x; }";
    assert_eq!(run(src, 1000), Some(Halt::Exited(Value::IntV(5))));
}

#[test]
fn a_for_loop_runs_as_a_while_loop() {
    let src = "int main() { int i = 0; for (i; i < 3; i) { i = i + 1; } return i; }";
    assert_eq!(run(src, 1000), Some(Halt::Exited(Value::IntV(3))));
}

#[test]
fn runs_on_after_an_if_without_else() {
    let src = "int main() { int x = 1; if (x == 1) { x = 7; } return x; }";
    assert_eq!(run(src, 100), Some(Halt::Exited(Value::IntV(7))));
}

#[test]
fn a_return_inside_a_loop_stops_the_machine() {
    let src = "int main() { int x = 0; while (true) { x = x + 1; if (x == 4) { return x; } } return 0; }";
    assert_eq!(run(src, 1000), Some(Halt::UnexpectedKont));
}

#[test]
fn a_function_without_return_returns_unit() {
    let src = "unit f() { int z = 1; } int main() { f(); return 3; }";
    assert_eq!(run(src, 100), Some(Halt::Exited(Value::IntV(3))));
    let src = "int f() { } int main() { return f(); }";
    assert_eq!(run(src, 100), Some(Halt::ReturnTypeMismatch));
}
