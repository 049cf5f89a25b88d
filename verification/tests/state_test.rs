use rust_cesk::ast::{Stmt, Type, Value};
use rust_cesk::conf::conf::Config;
use rust_cesk::conf::parts::address::Address;
use rust_cesk::conf::parts::environment::Env;
use rust_cesk::conf::parts::store::Store;
use rust_cesk::conf::semantics::Halt;
use rust_cesk::conf::ProgramHandler;
use rust_cesk::parser::lexer::lexer::lex;
use rust_cesk::parser::parse::parse;
use rust_cesk::visit::successor_visitor::SuccessorMap;
use std::rc::Rc;

#[test]
fn environment_reads_back_the_latest_binding() {
    let mut e = Env::new();
    assert_eq!(e.get("x"), None);
    e.insert("x".to_string(), Address::new(1));
    e.insert("y".to_string(), Address::new(2));
    e.insert("x".to_string(), Address::new(3));
    assert_eq!(e.get("x"), Some(Address::new(3)));
    assert_eq!(e.get("y"), Some(Address::new(2)));
    assert_eq!(e.get("z"), None);
    let d = e.duplicate();
    assert_eq!(d.get("x"), Some(Address::new(3)));
}

#[test]
fn store_reads_back_the_latest_write() {
    let mut s = Store::new();
    assert_eq!(s.get(&Address::new(0)), None);
    s.insert(Address::new(0), Value::IntV(5));
    s.insert(Address::new(1), Value::BoolV(true));
    s.insert(Address::new(0), Value::UnitV);
    assert_eq!(s.get(&Address::new(0)), Some(Value::UnitV));
    assert_eq!(s.get(&Address::new(1)), Some(Value::BoolV(true)));
    assert_eq!(s.duplicate().get(&Address::new(1)), Some(Value::BoolV(true)));
}

#[test]
fn successor_map_reads_back_the_latest_record() {
    let a = Rc::new(Stmt::break_());
    let b = Rc::new(Stmt::continue_());
    let c = Rc::new(Stmt::decl(Type::IntT, "c".to_string(), None));
    let mut m = SuccessorMap::new();
    assert_eq!(m.get(&a), None);
    m.insert(a.clone(), b.clone());
    m.insert(b.clone(), c.clone());
    m.insert(a.clone(), c.clone());
    assert_eq!(m.get(&a), Some(c.clone()));
    assert_eq!(m.get(&b), Some(c.clone()));
    assert_eq!(m.get(&c), None);
}

#[test]
fn parsed_functions_are_in_name_order() {
    let tokens = lex("int zeta() { return 1; } int alpha() { return 2; } int main() { return 0; } int beta() { return 3; }");
    let program = parse(&tokens).unwrap();
    let names: Vec<&str> = program.funs.iter().map(|f| f.name.as_str()).collect();
    assert_eq!(names, vec!["alpha", "beta", "main", "zeta"]);
}

#[test]
fn each_declaration_gets_its_own_address() {
    let tokens = lex("int main() { int x; int y; x = 1; y = 2; return x; }");
    let mut program = parse(&tokens).unwrap();
    let entry = program.get_entry().unwrap();
    let mut handler = ProgramHandler::from_program(program);
    let mut config = Config::from_stmt(&entry);
    let mut halt = None;
    for _ in 0..100 {
        match config.try_next(&mut handler) {
            Ok(next) => config = next,
            Err(h) => {
                halt = Some(h);
                break;
            }
        }
    }
    assert_eq!(halt, Some(Halt::Exited(Value::IntV(1))));
    assert_eq!(handler.get_address(), Address::new(2));
}
