use rust_cesk::ast::{Operation, UOperation, Value};

fn i(n: i32) -> Value {
    Value::IntV(n)
}

#[test]
fn arithmetic_values() {
    assert_eq!(Operation::Add.try_call(&i(2), &i(3)), Some(i(5)));
    assert_eq!(Operation::Sub.try_call(&i(2), &i(5)), Some(i(-3)));
    assert_eq!(Operation::Mult.try_call(&i(-4), &i(6)), Some(i(-24)));
    assert_eq!(Operation::Add.call(&i(40), &i(2)), i(42));
}

#[test]
fn division_rounds_towards_zero() {
    assert_eq!(Operation::Div.try_call(&i(-7), &i(2)), Some(i(-3)));
    assert_eq!(Operation::Div.try_call(&i(7), &i(-2)), Some(i(-3)));
    assert_eq!(Operation::Rem.try_call(&i(-7), &i(2)), Some(i(-1)));
    assert_eq!(Operation::Rem.try_call(&i(7), &i(-2)), Some(i(1)));
}

#[test]
fn operations_that_would_panic_give_nothing() {
    assert_eq!(Operation::Div.try_call(&i(7), &i(0)), None);
    assert_eq!(Operation::Rem.try_call(&i(7), &i(0)), None);
    assert_eq!(Operation::Div.try_call(&i(i32::MIN), &i(-1)), None);
    assert_eq!(Operation::Rem.try_call(&i(i32::MIN), &i(-1)), None);
    assert_eq!(Operation::Add.try_call(&i(i32::MAX), &i(1)), None);
    assert_eq!(Operation::Sub.try_call(&i(i32::MIN), &i(1)), None);
    assert_eq!(Operation::Mult.try_call(&i(65536), &i(65536)), None);
    assert_eq!(Operation::Add.try_call(&Value::BoolV(true), &i(1)), None);
    assert_eq!(Operation::Eq.try_call(&Value::BoolV(true), &Value::BoolV(true)), None);
}

#[test]
fn comparisons() {
    let t = Some(Value::BoolV(true));
    let f = Some(Value::BoolV(false));
    assert_eq!(Operation::Eq.try_call(&i(3), &i(3)), t);
    assert_eq!(Operation::Neq.try_call(&i(3), &i(3)), f);
    assert_eq!(Operation::Lt.try_call(&i(2), &i(3)), t);
    assert_eq!(Operation::Gt.try_call(&i(2), &i(3)), f);
    assert_eq!(Operation::Lte.try_call(&i(3), &i(3)), t);
    assert_eq!(Operation::Gte.try_call(&i(2), &i(3)), f);
}

#[test]
fn unary_operations() {
    assert_eq!(UOperation::Neg.try_call(&i(5)), Some(i(-5)));
    assert_eq!(UOperation::Neg.try_call(&i(i32::MIN)), None);
    assert_eq!(UOperation::Not.try_call(&Value::BoolV(true)), Some(Value::BoolV(false)));
    assert_eq!(UOperation::Not.try_call(&i(1)), None);
    assert_eq!(UOperation::Neg.call(&i(-8)), i(8));
}
