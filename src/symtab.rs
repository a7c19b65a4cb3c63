//! The symbol table: each label with the address it was defined at.
use vstd::prelude::*;
use crate::numbers::WORD_LIMIT;
use crate::opcode::same_chars;

verus! {

/// The map that a list of names and a list of addresses describe, a later
/// entry overriding an earlier one.
pub open spec fn table_of(names: Seq<Seq<char>>, addrs: Seq<u32>) -> Map<Seq<char>, u32>
    decreases names.len(),
{
    if names.len() == 0 || addrs.len() == 0 {
        Map::empty()
    } else {
        table_of(names.drop_last(), addrs.drop_last()).insert(names.last(), addrs.last())
    }
}

proof fn lemma_table_of(names: Seq<Seq<char>>, addrs: Seq<u32>, k: Seq<char>)
    requires
        names.len() == addrs.len(),
        forall|i: int, j: int| 0 <= i < j < names.len() ==> names[i] != names[j],
    ensures
        table_of(names, addrs).contains_key(k) <==> exists|i: int| 0 <= i < names.len() && names[i] == k,
        forall|i: int| 0 <= i < names.len() && names[i] == k ==> table_of(names, addrs)[k] == addrs[i],
    decreases names.len(),
{
    if names.len() > 0 {
        let n = names.drop_last();
        let a = addrs.drop_last();
        lemma_table_of(n, a, k);
        let last = names.len() - 1;
        if k == names.last() {
            assert(names[last] == k);
        } else {
            if table_of(names, addrs).contains_key(k) {
                let i = choose|i: int| 0 <= i < n.len() && n[i] == k;
                assert(names[i] == k);
            }
            if exists|i: int| 0 <= i < names.len() && names[i] == k {
                let i = choose|i: int| 0 <= i < names.len() && names[i] == k;
                assert(n[i] == k);
            }
        }
        assert forall|i: int| 0 <= i < names.len() && names[i] == k implies table_of(names, addrs)[k]
            == addrs[i] by {
            if i < last {
                assert(n[i] == k);
            }
        }
    }
}

/// The labels of a program with their addresses; a label occurs once.
pub struct SymbolTable {
    names: Vec<Vec<char>>,
    addrs: Vec<u32>,
}

impl View for SymbolTable {
    type V = Map<Seq<char>, u32>;

    closed spec fn view(&self) -> Map<Seq<char>, u32> {
        table_of(self.name_seq(), self.addrs@)
    }
}

impl SymbolTable {
    /// The labels, in the order they were added.
    pub closed spec fn name_seq(&self) -> Seq<Seq<char>> {
        self.names@.map_values(|v: Vec<char>| v@)
    }

    /// Labels are unique and every address fits in six hexadecimal digits.
    pub closed spec fn wf(&self) -> bool {
        &&& self.names@.len() == self.addrs@.len()
        &&& forall|i: int, j: int|
            0 <= i < j < self.names@.len() ==> self.names@[i]@ != self.names@[j]@
        &&& forall|i: int| 0 <= i < self.addrs@.len() ==> self.addrs@[i] <= WORD_LIMIT
    }

    proof fn lemma_view(&self, k: Seq<char>)
        requires
            self.wf(),
        ensures
            self@.contains_key(k) <==> exists|i: int|
                0 <= i < self.names@.len() && self.names@[i]@ == k,
            forall|i: int|
                0 <= i < self.names@.len() && self.names@[i]@ == k ==> self@[k] == self.addrs@[i],
            self@.contains_key(k) ==> self@[k] <= WORD_LIMIT,
    {
        let ns = self.name_seq();
        assert forall|i: int, j: int| 0 <= i < j < ns.len() implies ns[i] != ns[j] by {
            assert(ns[i] == self.names@[i]@);
            assert(ns[j] == self.names@[j]@);
        }
        lemma_table_of(ns, self.addrs@, k);
        if self@.contains_key(k) {
            let i = choose|i: int| 0 <= i < ns.len() && ns[i] == k;
            assert(self.names@[i]@ == k);
        }
        if exists|i: int| 0 <= i < self.names@.len() && self.names@[i]@ == k {
            let i = choose|i: int| 0 <= i < self.names@.len() && self.names@[i]@ == k;
            assert(ns[i] == k);
        }
        assert forall|i: int| 0 <= i < self.names@.len() && self.names@[i]@ == k implies self@[k]
            == self.addrs@[i] by {
            assert(ns[i] == k);
        }
    }

    /// A table with no labels.
    pub fn new() -> (t: SymbolTable)
        ensures
            t.wf(),
            t@ == Map::<Seq<char>, u32>::empty(),
    {
        let t = SymbolTable { names: Vec::new(), addrs: Vec::new() };
        assert(t.name_seq().len() == 0);
        t
    }

    /// The address of `name`, where it is defined.
    pub fn lookup(&self, name: &[char]) -> (r: Option<u32>)
        requires
            self.wf(),
        ensures
            r == (if self@.contains_key(name@) {
                Some(self@[name@])
            } else {
                None
            }),
            r matches Some(a) ==> a <= WORD_LIMIT,
    {
        proof {
            self.lemma_view(name@);
        }
        let mut i: usize = 0;
        while i < self.names.len()
            invariant
                self.wf(),
                i <= self.names@.len(),
                forall|j: int| 0 <= j < i ==> self.names@[j]@ != name@,
            decreases self.names@.len() - i,
        {
            if same_chars(self.names[i].as_slice(), name) {
                proof {
                    self.lemma_view(name@);
                    assert(self.names@[i as int]@ == name@);
                }
                return Some(self.addrs[i]);
            }
            i += 1;
        }
        None
    }

    /// Whether `name` is defined.
    pub fn contains(&self, name: &[char]) -> (r: bool)
        requires
            self.wf(),
        ensures
            r == self@.contains_key(name@),
    {
        self.lookup(name).is_some()
    }

    /// Defines `name` at `addr`.
    pub fn insert(&mut self, name: Vec<char>, addr: u32)
        requires
            old(self).wf(),
            !old(self)@.contains_key(name@),
            addr <= WORD_LIMIT,
        ensures
            final(self).wf(),
            final(self)@ == old(self)@.insert(name@, addr),
    {
        proof {
            old(self).lemma_view(name@);
        }
        let ghost n = name@;
        self.names.push(name);
        self.addrs.push(addr);
        proof {
            assert(self.name_seq().drop_last() =~= old(self).name_seq());
            assert(self.addrs@.drop_last() =~= old(self).addrs@);
            assert(self.name_seq().last() == n);
        }
    }

    /// How many labels the table holds.
    pub fn len(&self) -> (r: usize)
        requires
            self.wf(),
        ensures
            r == self.name_seq().len(),
    {
        self.names.len()
    }

    /// The `i`-th label in the order of definition, with its address.
    pub fn entry(&self, i: usize) -> (r: (Vec<char>, u32))
        requires
            self.wf(),
            i < self.name_seq().len(),
        ensures
            r.0@ == self.name_seq()[i as int],
            self@.contains_key(r.0@),
            self@[r.0@] == r.1,
    {
        proof {
            self.lemma_view(self.names@[i as int]@);
        }
        let name = self.names[i].clone();
        assert(name@ == self.names@[i as int]@);
        (name, self.addrs[i])
    }
}

} // verus!
