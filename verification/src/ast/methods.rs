use super::ast::{Arguments, Expr, Fun, Param, ParamList, Stmt, Type};
use crate::parser::grammar::name_lt;
use std::rc::Rc;
use vstd::prelude::*;

verus! {

/// `Rc::clone` from std: the new handle points to the same allocation, so it sees the
/// same value.
#[verifier::external_body]
pub(crate) fn rc_clone<T>(r: &Rc<T>) -> (o: Rc<T>)
    ensures
        o == *r,
{
    Rc::clone(r)
}

/// Copies of the handles of a slice, in order.
pub(crate) fn copy_rcs<T>(s: &[Rc<T>]) -> (r: Vec<Rc<T>>)
    ensures
        r@ == s@,
{
    let mut out: Vec<Rc<T>> = Vec::new();
    let mut k: usize = 0;
    while k < s.len()
        invariant
            k <= s.len(),
            out@ == s@.take(k as int),
        decreases s.len() - k,
    {
        out.push(rc_clone(&s[k]));
        k = k + 1;
        assert(out@ =~= s@.take(k as int));
    }
    assert(s@.take(s.len() as int) =~= s@);
    out
}

/// Whether two texts are equal.
pub fn str_eq(a: &str, b: &str) -> (r: bool)
    ensures
        r == (a@ == b@),
{
    let n = a.unicode_len();
    if n != b.unicode_len() {
        return false;
    }
    let mut k: usize = 0;
    while k < n
        invariant
            n == a@.len() == b@.len(),
            k <= n,
            forall|j: int| 0 <= j < k ==> a@[j] == b@[j],
        decreases n - k,
    {
        if a.get_char(k) != b.get_char(k) {
            return false;
        }
        k = k + 1;
    }
    assert(a@ =~= b@);
    true
}

/// Whether `a` comes before `b` in the order of names.
pub fn str_lt(a: &str, b: &str) -> (r: bool)
    ensures
        r == name_lt(a@, b@),
{
    let n = a.unicode_len();
    let m = b.unicode_len();
    let mut k: usize = 0;
    assert(a@.skip(0) =~= a@);
    assert(b@.skip(0) =~= b@);
    while k < n && k < m && a.get_char(k) == b.get_char(k)
        invariant
            n == a@.len(),
            m == b@.len(),
            k <= n,
            k <= m,
            name_lt(a@, b@) == name_lt(a@.skip(k as int), b@.skip(k as int)),
        decreases n - k,
    {
        assert(a@.skip(k as int).drop_first() =~= a@.skip(k + 1));
        assert(b@.skip(k as int).drop_first() =~= b@.skip(k + 1));
        k = k + 1;
    }
    if k == n {
        k < m
    } else if k == m {
        false
    } else {
        let x = a.get_char(k);
        let y = b.get_char(k);
        assert(a@.skip(k as int)[0] == x);
        assert(b@.skip(k as int)[0] == y);
        (x as u32) < (y as u32)
    }
}

impl Stmt {
    /// Takes the first statement of a block, which is left holding the rest.
    pub fn next(&mut self) -> (r: Option<Rc<Stmt>>)
        requires
            *old(self) is Block,
            old(self)->stmts@.len() > 0,
        ensures
            r == Some(old(self)->stmts@[0]),
            *final(self) is Block,
            final(self)->stmts@ == old(self)->stmts@.drop_first(),
    {
        match self {
            Stmt::Block { stmts } => {
                let ret = rc_clone(&stmts[0]);
                let mut rest: Vec<Rc<Stmt>> = Vec::new();
                let mut k: usize = 1;
                while k < stmts.len()
                    invariant
                        1 <= k <= stmts.len(),
                        rest@ == stmts@.subrange(1, k as int),
                    decreases stmts.len() - k,
                {
                    rest.push(rc_clone(&stmts[k]));
                    k = k + 1;
                    assert(rest@ =~= stmts@.subrange(1, k as int));
                }
                assert(rest@ =~= stmts@.drop_first());
                *self = Stmt::block(rest);
                Some(ret)
            },
            _ => None,
        }
    }
}

impl Type {
    /// A copy of this type.
    pub fn duplicate(&self) -> (r: Self)
        ensures
            r == *self,
    {
        match self {
            Type::IntT => Type::IntT,
            Type::BoolT => Type::BoolT,
            Type::UnitT => Type::UnitT,
            Type::ArrayT(inner) => Type::ArrayT(rc_clone(inner)),
        }
    }

    /// Whether two types are the same.
    pub fn same(&self, other: &Type) -> (r: bool)
        ensures
            r == (*self == *other),
        decreases self,
    {
        match (self, other) {
            (Type::IntT, Type::IntT) => true,
            (Type::BoolT, Type::BoolT) => true,
            (Type::UnitT, Type::UnitT) => true,
            (Type::ArrayT(a), Type::ArrayT(b)) => (**a).same(&**b),
            _ => false,
        }
    }
}

impl Param {
    /// A copy of this parameter.
    pub fn duplicate(&self) -> (r: Self)
        ensures
            r == *self,
    {
        Param { typ: self.typ.duplicate(), name: self.name.clone() }
    }
}

impl Fun {
    /// A copy of this function, sharing its parameters and body.
    pub fn duplicate(&self) -> (r: Self)
        ensures
            r == *self,
    {
        Fun {
            typ: self.typ.duplicate(),
            name: self.name.clone(),
            params: rc_clone(&self.params),
            body: rc_clone(&self.body),
        }
    }
}

impl Arguments {
    pub fn slice_ref(&self) -> (r: &[Rc<Expr>])
        ensures
            r@ == self.args@,
    {
        self.args.as_slice()
    }

    /// Arguments holding the given expressions, in order.
    pub fn from_slice(value: &[Rc<Expr>]) -> (r: Self)
        ensures
            r.args@ == value@,
    {
        Self { args: copy_rcs(value) }
    }
}

impl ParamList {
    pub fn slice_ref(&self) -> (r: &[Param])
        ensures
            r@ == self.params@,
    {
        self.params.as_slice()
    }

    /// A parameter list holding copies of the given parameters, in order.
    pub fn from_slice(value: &[Param]) -> (r: Self)
        ensures
            r.params@ == value@,
    {
        let mut out: Vec<Param> = Vec::new();
        let mut k: usize = 0;
        while k < value.len()
            invariant
                k <= value.len(),
                out@ == value@.take(k as int),
            decreases value.len() - k,
        {
            out.push(value[k].duplicate());
            k = k + 1;
            assert(out@ =~= value@.take(k as int));
        }
        assert(value@.take(value.len() as int) =~= value@);
        Self { params: out }
    }
}

} // verus!
