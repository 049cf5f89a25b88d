use rust_cesk::ast::{Stmt, Type};
use std::rc::Rc;

#[test]
fn block_iter() {
    let dec = Rc::new(Stmt::decl(Type::IntT, "x".to_string(), None));
    let dec2 = Rc::new(Stmt::decl(Type::IntT, "y".to_string(), None));

    let mut bl = Stmt::block(vec![dec, dec2]);

    assert_eq!(
        *bl.next().unwrap().as_ref(),
        Stmt::decl(Type::IntT, "x".to_string(), None)
    );
    assert_eq!(
        *bl.next().unwrap().as_ref(),
        Stmt::decl(Type::IntT, "y".to_string(), None)
    );
    assert_eq!(bl, Stmt::block(vec![]));
}
