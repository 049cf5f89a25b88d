use super::address::Address;
use crate::ast::ast::Name;
use vstd::prelude::*;

verus! {

/// The map of an association list, a later binding of a name hiding an earlier one.
pub open spec fn env_map(s: Seq<(Name, Address)>) -> Map<Seq<char>, Address>
    decreases s.len(),
{
    if s.len() == 0 {
        Map::empty()
    } else {
        env_map(s.drop_last()).insert(s.last().0@, s.last().1)
    }
}

/// Bindings after index `k` that do not bind `key` leave its lookup to the bindings before.
proof fn lemma_env_map_suffix(s: Seq<(Name, Address)>, key: Seq<char>, k: int)
    requires
        0 <= k <= s.len(),
        forall|j: int| k <= j < s.len() ==> (#[trigger] s[j]).0@ != key,
    ensures
        env_map(s).dom().contains(key) == env_map(s.take(k)).dom().contains(key),
        env_map(s).dom().contains(key) ==> env_map(s)[key] == env_map(s.take(k))[key],
    decreases s.len() - k,
{
    if k == s.len() {
        assert(s.take(k) =~= s);
    } else {
        let t = s.drop_last();
        assert forall|j: int| k <= j < t.len() implies (#[trigger] t[j]).0@ != key by {
            assert(t[j] == s[j]);
        }
        lemma_env_map_suffix(t, key, k);
        assert(t.take(k) =~= s.take(k));
    }
}

/// The environment of a machine configuration: names bound to addresses.
#[derive(Debug)]
pub struct Env {
    entries: Vec<(Name, Address)>,
}

impl View for Env {
    type V = Map<Seq<char>, Address>;

    closed spec fn view(&self) -> Map<Seq<char>, Address> {
        env_map(self.entries@)
    }
}

impl Env {
    pub fn new() -> (r: Self)
        ensures
            r@ == Map::<Seq<char>, Address>::empty(),
    {
        Env { entries: Vec::new() }
    }

    /// Binds `name` to `addr`, replacing an earlier binding of the name.
    pub fn insert(&mut self, name: Name, addr: Address)
        ensures
            final(self)@ == old(self)@.insert(name@, addr),
    {
        let ghost old_entries = self.entries@;
        self.entries.push((name, addr));
        assert(self.entries@.drop_last() =~= old_entries);
    }

    /// The address bound to `name`.
    pub fn get(&self, name: &str) -> (r: Option<Address>)
        ensures
            match r {
                Some(a) => self@.dom().contains(name@) && self@[name@] == a,
                None => !self@.dom().contains(name@),
            },
    {
        let mut k = self.entries.len();
        while k > 0
            invariant
                k <= self.entries.len(),
                forall|j: int| k <= j < self.entries@.len() ==> (#[trigger] self.entries@[j]).0@
                    != name@,
            decreases k,
        {
            if crate::ast::methods::str_eq(self.entries[k - 1].0.as_str(), name) {
                proof {
                    lemma_env_map_suffix(self.entries@, name@, k as int);
                    assert(self.entries@.take(k as int).drop_last() =~= self.entries@.take(
                        k - 1,
                    ));
                }
                return Some(self.entries[k - 1].1);
            }
            k = k - 1;
        }
        proof {
            lemma_env_map_suffix(self.entries@, name@, 0);
            assert(self.entries@.take(0) =~= Seq::<(Name, Address)>::empty());
        }
        None
    }

    /// A copy of this environment.
    pub fn duplicate(&self) -> (r: Self)
        ensures
            r@ == self@,
    {
        let mut out: Vec<(Name, Address)> = Vec::new();
        let mut k: usize = 0;
        while k < self.entries.len()
            invariant
                k <= self.entries.len(),
                out@.len() == k,
                forall|j: int| 0 <= j < k ==> (#[trigger] out@[j]).0@ == self.entries@[j].0@
                    && out@[j].1 == self.entries@[j].1,
            decreases self.entries.len() - k,
        {
            let (n, a) = &self.entries[k];
            out.push((n.clone(), *a));
            k = k + 1;
        }
        proof {
            lemma_env_map_same(out@, self.entries@);
        }
        Env { entries: out }
    }
}

proof fn lemma_env_map_same(a: Seq<(Name, Address)>, b: Seq<(Name, Address)>)
    requires
        a.len() == b.len(),
        forall|j: int| 0 <= j < a.len() ==> (#[trigger] a[j]).0@ == b[j].0@ && a[j].1 == b[j].1,
    ensures
        env_map(a) == env_map(b),
    decreases a.len(),
{
    if a.len() > 0 {
        assert forall|j: int| 0 <= j < a.len() - 1 implies (#[trigger] a.drop_last()[j]).0@
            == b.drop_last()[j].0@ && a.drop_last()[j].1 == b.drop_last()[j].1 by {
            assert(a.drop_last()[j] == a[j]);
            assert(b.drop_last()[j] == b[j]);
        }
        lemma_env_map_same(a.drop_last(), b.drop_last());
    }
}

/// Reading a name just bound gives the address it was bound to, and every other name keeps
/// its binding.
pub proof fn law_env_read_after_write(
    m: Map<Seq<char>, Address>,
    name: Seq<char>,
    addr: Address,
    other: Seq<char>,
)
    ensures
        m.insert(name, addr).dom().contains(name),
        m.insert(name, addr)[name] == addr,
        other != name ==> m.insert(name, addr).dom().contains(other) == m.dom().contains(other),
        other != name && m.dom().contains(other) ==> m.insert(name, addr)[other] == m[other],
{
}

} // verus!
