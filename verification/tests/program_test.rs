use rust_cesk::ast::methods::{str_eq, str_lt};
use rust_cesk::ast::{Arguments, Expr, Fun, Node, ParamList, Program, Stmt, Type};
use rust_cesk::conf::parts::address::{Address, AddressError};
use rust_cesk::ast::Value;
use std::rc::Rc;

fn fun(name: &str, typ: Type) -> Fun {
    Fun {
        typ,
        name: name.to_string(),
        params: Rc::new(ParamList { params: vec![] }),
        body: Rc::new(Stmt::block(vec![])),
    }
}

#[test]
fn functions_stay_in_name_order_one_per_name() {
    let mut p = Program::new();
    p.insert(fun("main", Type::IntT));
    p.insert(fun("b", Type::IntT));
    p.insert(fun("a", Type::BoolT));
    p.insert(fun("b", Type::UnitT));
    let names: Vec<&str> = p.funs.iter().map(|f| f.name.as_str()).collect();
    assert_eq!(names, vec!["a", "b", "main"]);
    assert_eq!(p.get("b").unwrap().typ, Type::UnitT);
    assert_eq!(p.get("a").unwrap().typ, Type::BoolT);
    assert!(p.get("c").is_none());
}

#[test]
fn entry_is_the_body_of_main() {
    let mut p = Program::new();
    assert_eq!(p.get_entry(), Err("failed to get entry point"));
    let mut m = fun("main", Type::IntT);
    m.body = Rc::new(Stmt::break_());
    p.insert(m);
    assert_eq!(*p.get_entry().unwrap(), Stmt::break_());
}

#[test]
fn name_order_is_by_character_code() {
    assert!(str_lt("B", "a"));
    assert!(str_lt("ab", "abc"));
    assert!(!str_lt("abc", "ab"));
    assert!(!str_lt("x", "x"));
    assert!(str_eq("x", "x"));
    assert!(!str_eq("x", "y"));
}

#[test]
fn index_into_an_array() {
    let arr = Value::ArrayV { size: 3, start_of_array: Address::new(10) };
    assert_eq!(Address::get_index_info(2, &arr), Ok(Address::new(12)));
    assert_eq!(Address::get_index_info(3, &arr), Ok(Address::new(13)));
    assert_eq!(Address::get_index_info(4, &arr), Err(AddressError));
    assert_eq!(Address::get_index_info(-1, &arr), Err(AddressError));
    assert_eq!(Address::get_index_info(0, &Value::IntV(1)), Err(AddressError));
}

#[test]
fn fresh_addresses_count_up() {
    let mut a = Address::new(7);
    assert_eq!(a.get_address(), Address::new(7));
    assert_eq!(a.get_address(), Address::new(8));
    assert_eq!(a, Address::new(9));
    assert_eq!(Address::new(4).address_offset(3), Address::new(7));
}

#[test]
fn nodes_are_equal_by_identity() {
    let n = Node::new(5);
    let m = n.clone();
    let k = Node::new(5);
    assert!(Node::ptr_eq(&n, &m));
    assert!(!Node::ptr_eq(&n, &k));
}

#[test]
fn argument_lists_copy_their_handles() {
    let e = Rc::new(Expr::val(Rc::new(Value::IntV(3))));
    let a = Arguments::from_slice(&[e.clone(), e.clone()]);
    assert_eq!(a.args.len(), 2);
    assert_eq!(*a.args[1], Expr::val(Rc::new(Value::IntV(3))));
    assert!(Rc::ptr_eq(&a.args[0], &e));
    assert_eq!(a.slice_ref().len(), 2);
}

#[test]
fn addresses_add_offsets() {
    let a = Address::new(10);
    assert_eq!(&a + 3i32, Address::new(13));
    assert_eq!(3i32 + &a, Address::new(13));
    assert_eq!(&a + 5usize, Address::new(15));
    assert_eq!(5usize + &a, Address::new(15));
}
