//! Collecting the declared types of names, scope by scope, while walking the tree.
use crate::ast::ast::{
    Arguments, Expr, Fun, Name, Operation, ParamList, Program, Stmt, Type, UOperation, Value,
};
use crate::ast::methods::str_eq;
use crate::ast::view::{params_view, ExprV, ParamV, StmtV};
use crate::visit::visit::{NodeV, Visit, Visitor};
use vstd::prelude::*;

verus! {

/// The map of a list of declarations, a later declaration of a name hiding an earlier one.
pub open spec fn decls_map(s: Seq<(Name, Type)>) -> Map<Seq<char>, Type>
    decreases s.len(),
{
    if s.len() == 0 {
        Map::empty()
    } else {
        decls_map(s.drop_last()).insert(s.last().0@, s.last().1)
    }
}

proof fn lemma_decls_map_suffix(s: Seq<(Name, Type)>, key: Seq<char>, k: int)
    requires
        0 <= k <= s.len(),
        forall|j: int| k <= j < s.len() ==> (#[trigger] s[j]).0@ != key,
    ensures
        decls_map(s).dom().contains(key) == decls_map(s.take(k)).dom().contains(key),
        decls_map(s).dom().contains(key) ==> decls_map(s)[key] == decls_map(s.take(k))[key],
    decreases s.len() - k,
{
    if k == s.len() {
        assert(s.take(k) =~= s);
    } else {
        let t = s.drop_last();
        assert forall|j: int| k <= j < t.len() implies (#[trigger] t[j]).0@ != key by {
            assert(t[j] == s[j]);
        }
        lemma_decls_map_suffix(t, key, k);
        assert(t.take(k) =~= s.take(k));
    }
}

/// The names declared in one scope, with their types.
pub struct Scope {
    entries: Vec<(Name, Type)>,
}

impl View for Scope {
    type V = Map<Seq<char>, Type>;

    closed spec fn view(&self) -> Map<Seq<char>, Type> {
        decls_map(self.entries@)
    }
}

impl Scope {
    pub fn new() -> (r: Self)
        ensures
            r@ == Map::<Seq<char>, Type>::empty(),
    {
        Scope { entries: Vec::new() }
    }

    /// Declares `name` with type `typ`, replacing an earlier declaration of the name.
    pub fn insert(&mut self, name: Name, typ: Type)
        ensures
            final(self)@ == old(self)@.insert(name@, typ),
    {
        let ghost old_entries = self.entries@;
        self.entries.push((name, typ));
        assert(self.entries@.drop_last() =~= old_entries);
    }

    /// The type `name` is declared with in this scope.
    pub fn get(&self, name: &str) -> (r: Option<Type>)
        ensures
            match r {
                Some(t) => self@.dom().contains(name@) && self@[name@] == t,
                None => !self@.dom().contains(name@),
            },
    {
        let mut k = self.entries.len();
        while k > 0
            invariant
                k <= self.entries.len(),
                forall|j: int| k <= j < self.entries@.len() ==> (#[trigger] self.entries@[j]).0@
                    != name@,
            decreases k,
        {
            if str_eq(self.entries[k - 1].0.as_str(), name) {
                proof {
                    lemma_decls_map_suffix(self.entries@, name@, k as int);
                    assert(self.entries@.take(k as int).drop_last() =~= self.entries@.take(
                        k - 1,
                    ));
                }
                return Some(self.entries[k - 1].1.duplicate());
            }
            k = k - 1;
        }
        proof {
            lemma_decls_map_suffix(self.entries@, name@, 0);
            assert(self.entries@.take(0) =~= Seq::<(Name, Type)>::empty());
        }
        None
    }
}

/// The type of `name` in the innermost of `scopes` that declares it.
pub open spec fn lookup_scopes(scopes: Seq<Map<Seq<char>, Type>>, name: Seq<char>) -> Option<Type>
    decreases scopes.len(),
{
    if scopes.len() == 0 {
        None
    } else if scopes.last().dom().contains(name) {
        Some(scopes.last()[name])
    } else {
        lookup_scopes(scopes.drop_last(), name)
    }
}

/// The scopes after `name` is declared with type `typ` in the innermost one; a first scope
/// is opened when there is none.
pub open spec fn declare(scopes: Seq<Map<Seq<char>, Type>>, name: Seq<char>, typ: Type) -> Seq<
    Map<Seq<char>, Type>,
> {
    if scopes.len() == 0 {
        seq![Map::empty().insert(name, typ)]
    } else {
        scopes.update(scopes.len() - 1, scopes.last().insert(name, typ))
    }
}

/// The scopes after the parameters `ps` are declared in order.
pub open spec fn declare_params(scopes: Seq<Map<Seq<char>, Type>>, ps: Seq<ParamV>) -> Seq<
    Map<Seq<char>, Type>,
>
    decreases ps.len(),
{
    if ps.len() == 0 {
        scopes
    } else {
        declare(declare_params(scopes, ps.drop_last()), ps.last().name, ps.last().typ)
    }
}

/// The message recorded for a name that no scope declares.
pub open spec fn undeclared_message(name: Seq<char>) -> Seq<char> {
    "undeclared symbol "@ + name
}

/// What a type checker holds: its scopes, innermost last; the types of the expressions
/// seen; and the errors found.
pub struct TypeCheckV {
    pub scopes: Seq<Map<Seq<char>, Type>>,
    pub types: Seq<Type>,
    pub errors: Seq<Seq<char>>,
}

pub open spec fn scopes_view(s: Seq<Scope>) -> Seq<Map<Seq<char>, Type>> {
    s.map_values(|x: Scope| x@)
}

pub open spec fn errors_view(s: Seq<String>) -> Seq<Seq<char>> {
    s.map_values(|x: String| x@)
}

/// Records the declared types of names, scope by scope, while walking the tree.
pub struct TypeCheck {
    scope_stack: Vec<Scope>,
    type_stack: Vec<Type>,
    error_stack: Vec<String>,
}

impl View for TypeCheck {
    type V = TypeCheckV;

    closed spec fn view(&self) -> TypeCheckV {
        TypeCheckV {
            scopes: scopes_view(self.scope_stack@),
            types: self.type_stack@,
            errors: errors_view(self.error_stack@),
        }
    }
}

impl TypeCheck {
    pub fn new() -> (r: Self)
        ensures
            r@ == (TypeCheckV { scopes: Seq::empty(), types: Seq::empty(), errors: Seq::empty() }),
    {
        let r = Self { scope_stack: Vec::new(), type_stack: Vec::new(), error_stack: Vec::new() };
        assert(r@.scopes =~= Seq::<Map<Seq<char>, Type>>::empty());
        assert(r@.errors =~= Seq::<Seq<char>>::empty());
        r
    }

    /// The type `name` is declared with, in the innermost scope that declares it. Where
    /// none does, an error is recorded and there is no type.
    pub fn get(&mut self, name: Name) -> (r: Option<Type>)
        ensures
            r == lookup_scopes(old(self)@.scopes, name@),
            final(self)@.scopes == old(self)@.scopes,
            final(self)@.types == old(self)@.types,
            final(self)@.errors == if r is Some {
                old(self)@.errors
            } else {
                old(self)@.errors.push(undeclared_message(name@))
            },
    {
        let ghost sv = self@.scopes;
        let mut k = self.scope_stack.len();
        assert(sv.take(k as int) =~= sv);
        while k > 0
            invariant
                k <= self.scope_stack.len(),
                sv == scopes_view(self.scope_stack@),
                lookup_scopes(sv, name@) == lookup_scopes(sv.take(k as int), name@),
            decreases k,
        {
            assert(sv.take(k as int).last() == self.scope_stack@[k - 1]@);
            match self.scope_stack[k - 1].get(name.as_str()) {
                Some(t) => {
                    return Some(t);
                },
                None => {},
            }
            assert(sv.take(k as int).drop_last() =~= sv.take(k - 1));
            k = k - 1;
        }
        let mut msg = String::new();
        msg.append("undeclared symbol ");
        msg.append(name.as_str());
        let ghost e0 = self.error_stack@;
        self.error_stack.push(msg);
        assert(errors_view(self.error_stack@) =~= errors_view(e0).push(undeclared_message(name@)));
        None
    }

    /// Declares `name` with type `typ` in the innermost scope, opening a first scope when
    /// there is none; an earlier declaration of the name in that scope is replaced.
    pub fn insert_symbol(&mut self, name: Name, typ: Type)
        ensures
            final(self)@ == (TypeCheckV { scopes: declare(old(self)@.scopes, name@, typ), ..old(self)@ }),
    {
        let ghost sv = self@.scopes;
        let mut scope = match self.scope_stack.pop() {
            Some(s) => s,
            None => Scope::new(),
        };
        let ghost before = scope@;
        scope.insert(name, typ);
        self.scope_stack.push(scope);
        assert(scopes_view(self.scope_stack@) =~= declare(sv, name@, typ));
    }

    fn open_scope(&mut self)
        ensures
            final(self)@ == (TypeCheckV {
                scopes: old(self)@.scopes.push(Map::empty()),
                ..old(self)@
            }),
    {
        let ghost sv = self@.scopes;
        self.scope_stack.push(Scope::new());
        assert(scopes_view(self.scope_stack@) =~= sv.push(Map::empty()));
    }
}

/// The types after the last one is taken off, if there is one.
pub open spec fn pop_type(t: Seq<Type>) -> Seq<Type> {
    if t.len() > 0 {
        t.drop_last()
    } else {
        t
    }
}

impl Visitor for TypeCheck {
    /// A block opens a scope, a declaration and a function's parameters declare names, a
    /// type is put on the type stack, and a binary operation takes its two operand types off.
    open spec fn step(s: TypeCheckV, ev: Visit) -> TypeCheckV {
        match ev {
            Visit::Pre(NodeV::Stmt(StmtV::Block(_))) => TypeCheckV {
                scopes: s.scopes.push(Map::empty()),
                ..s
            },
            Visit::Pre(NodeV::Stmt(StmtV::Decl(typ, name, _))) => TypeCheckV {
                scopes: declare(s.scopes, name, typ),
                ..s
            },
            Visit::Pre(NodeV::Fun(f)) => TypeCheckV {
                scopes: declare_params(s.scopes, f.params),
                ..s
            },
            Visit::Post(NodeV::Expr(ExprV::BinaryOp(_, _, _))) => TypeCheckV {
                types: pop_type(pop_type(s.types)),
                ..s
            },
            Visit::Post(NodeV::Type(t)) => TypeCheckV { types: s.types.push(t), ..s },
            _ => s,
        }
    }

    fn previsit_name(&mut self, node: &Name) {
    }

    fn previsit_value(&mut self, node: &Value) {
    }

    fn previsit_operation(&mut self, node: &Operation) {
    }

    fn previsit_uoperation(&mut self, node: &UOperation) {
    }

    fn previsit_expr(&mut self, node: &Expr) {
    }

    fn previsit_type(&mut self, node: &Type) {
    }

    fn previsit_stmt(&mut self, node: &Stmt) {
        match node {
            Stmt::Block { .. } => self.open_scope(),
            Stmt::Decl { typ, name, .. } => self.insert_symbol(name.clone(), typ.duplicate()),
            _ => {},
        }
    }

    fn previsit_arguments(&mut self, node: &Arguments) {
    }

    fn previsit_paramlist(&mut self, node: &ParamList) {
    }

    fn previsit_fun(&mut self, node: &Fun) {
        let ps = &node.params.params;
        let ghost pv = params_view(ps@);
        let ghost s0 = self@;
        assert(pv.take(0) =~= Seq::<ParamV>::empty());
        let mut i: usize = 0;
        while i < ps.len()
            invariant
                i <= ps.len(),
                pv == params_view(ps@),
                self@ == (TypeCheckV { scopes: declare_params(s0.scopes, pv.take(i as int)), ..s0 }),
            decreases ps.len() - i,
        {
            let p = &ps[i];
            self.insert_symbol(p.name.clone(), p.typ.duplicate());
            assert(pv.take(i + 1).drop_last() =~= pv.take(i as int));
            i = i + 1;
        }
        assert(pv.take(ps.len() as int) =~= pv);
    }

    fn previsit_program(&mut self, node: &Program) {
    }

    fn postvisit_name(&mut self, node: &Name) {
    }

    fn postvisit_value(&mut self, node: &Value) {
    }

    fn postvisit_operation(&mut self, node: &Operation) {
    }

    fn postvisit_uoperation(&mut self, node: &UOperation) {
    }

    fn postvisit_expr(&mut self, node: &Expr) {
        match node {
            Expr::BinaryOp { .. } => {
                let _lhs = self.type_stack.pop();
                let _rhs = self.type_stack.pop();
            },
            _ => {},
        }
    }

    fn postvisit_type(&mut self, node: &Type) {
        self.type_stack.push(node.duplicate());
    }

    fn postvisit_stmt(&mut self, node: &Stmt) {
    }

    fn postvisit_arguments(&mut self, node: &Arguments) {
    }

    fn postvisit_paramlist(&mut self, node: &ParamList) {
    }

    fn postvisit_fun(&mut self, node: &Fun) {
    }

    fn postvisit_program(&mut self, node: &Program) {
    }
}

/// A name just declared is found with the type it was declared with; every other name is
/// found as before; and opening a scope changes what no lookup finds.
pub proof fn law_declare_then_lookup(
    scopes: Seq<Map<Seq<char>, Type>>,
    name: Seq<char>,
    typ: Type,
    other: Seq<char>,
)
    ensures
        lookup_scopes(declare(scopes, name, typ), name) == Some(typ),
        other != name ==> lookup_scopes(declare(scopes, name, typ), other) == lookup_scopes(
            scopes,
            other,
        ),
        lookup_scopes(scopes.push(Map::empty()), other) == lookup_scopes(scopes, other),
{
    let d = declare(scopes, name, typ);
    assert(scopes.push(Map::empty()).drop_last() =~= scopes);
    if scopes.len() == 0 {
        assert(d.drop_last() =~= Seq::<Map<Seq<char>, Type>>::empty());
        assert(lookup_scopes(d.drop_last(), other) is None);
    } else {
        assert(d.drop_last() =~= scopes.drop_last());
        assert(d.last() == scopes.last().insert(name, typ));
        if other != name {
            assert(d.last().dom().contains(other) == scopes.last().dom().contains(other));
        }
    }
}

} // verus!
