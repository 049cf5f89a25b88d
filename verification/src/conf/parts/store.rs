use super::address::Address;
use crate::ast::ast::Value;
use vstd::prelude::*;

verus! {

/// The map of an association list, a later binding of an address hiding an earlier one.
pub open spec fn store_map(s: Seq<(Address, Value)>) -> Map<Address, Value>
    decreases s.len(),
{
    if s.len() == 0 {
        Map::empty()
    } else {
        store_map(s.drop_last()).insert(s.last().0, s.last().1)
    }
}

proof fn lemma_store_map_suffix(s: Seq<(Address, Value)>, key: Address, k: int)
    requires
        0 <= k <= s.len(),
        forall|j: int| k <= j < s.len() ==> (#[trigger] s[j]).0 != key,
    ensures
        store_map(s).dom().contains(key) == store_map(s.take(k)).dom().contains(key),
        store_map(s).dom().contains(key) ==> store_map(s)[key] == store_map(s.take(k))[key],
    decreases s.len() - k,
{
    if k == s.len() {
        assert(s.take(k) =~= s);
    } else {
        let t = s.drop_last();
        assert forall|j: int| k <= j < t.len() implies (#[trigger] t[j]).0 != key by {
            assert(t[j] == s[j]);
        }
        lemma_store_map_suffix(t, key, k);
        assert(t.take(k) =~= s.take(k));
    }
}

/// The store of a machine configuration: addresses holding values.
#[derive(Debug)]
pub struct Store {
    entries: Vec<(Address, Value)>,
}

impl View for Store {
    type V = Map<Address, Value>;

    closed spec fn view(&self) -> Map<Address, Value> {
        store_map(self.entries@)
    }
}

impl Store {
    pub fn new() -> (r: Self)
        ensures
            r@ == Map::<Address, Value>::empty(),
    {
        Store { entries: Vec::new() }
    }

    /// Puts `val` at `addr`, replacing what was there.
    pub fn insert(&mut self, addr: Address, val: Value)
        ensures
            final(self)@ == old(self)@.insert(addr, val),
    {
        let ghost old_entries = self.entries@;
        self.entries.push((addr, val));
        assert(self.entries@.drop_last() =~= old_entries);
    }

    /// The value at `addr`.
    pub fn get(&self, addr: &Address) -> (r: Option<Value>)
        ensures
            match r {
                Some(v) => self@.dom().contains(*addr) && self@[*addr] == v,
                None => !self@.dom().contains(*addr),
            },
    {
        let mut k = self.entries.len();
        while k > 0
            invariant
                k <= self.entries.len(),
                forall|j: int| k <= j < self.entries@.len() ==> (#[trigger] self.entries@[j]).0
                    != *addr,
            decreases k,
        {
            if self.entries[k - 1].0 == *addr {
                proof {
                    lemma_store_map_suffix(self.entries@, *addr, k as int);
                    assert(self.entries@.take(k as int).drop_last() =~= self.entries@.take(
                        k - 1,
                    ));
                }
                return Some(self.entries[k - 1].1);
            }
            k = k - 1;
        }
        proof {
            lemma_store_map_suffix(self.entries@, *addr, 0);
            assert(self.entries@.take(0) =~= Seq::<(Address, Value)>::empty());
        }
        None
    }

    /// A copy of this store.
    pub fn duplicate(&self) -> (r: Self)
        ensures
            r@ == self@,
    {
        let mut out: Vec<(Address, Value)> = Vec::new();
        let mut k: usize = 0;
        while k < self.entries.len()
            invariant
                k <= self.entries.len(),
                out@ == self.entries@.take(k as int),
            decreases self.entries.len() - k,
        {
            out.push(self.entries[k]);
            k = k + 1;
            assert(out@ =~= self.entries@.take(k as int));
        }
        assert(self.entries@.take(self.entries.len() as int) =~= self.entries@);
        Store { entries: out }
    }
}

/// Reading an address just written gives the value written, and every other address keeps
/// its value.
pub proof fn law_store_read_after_write(
    m: Map<Address, Value>,
    addr: Address,
    val: Value,
    other: Address,
)
    ensures
        m.insert(addr, val).dom().contains(addr),
        m.insert(addr, val)[addr] == val,
        other != addr ==> m.insert(addr, val).dom().contains(other) == m.dom().contains(other),
        other != addr && m.dom().contains(other) ==> m.insert(addr, val)[other] == m[other],
{
}

} // verus!
