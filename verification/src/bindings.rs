//! Binding environments: finite maps from variable names to terms.
//!
//! A `Bindings` keeps its entries in the order in which their names were first
//! bound. Its view is the map from names to the terms bound to them.

use crate::term::{Term, Value};
use vstd::prelude::*;

verus! {

/// The mathematical model of a binding environment.
pub type Env = Map<Seq<char>, Term>;

/// One entry of a binding environment.
#[derive(Debug)]
struct Entry {
    name: String,
    value: Value,
}

/// A binding environment: each name is bound to at most one value.
#[derive(Debug)]
pub struct Bindings {
    entries: Vec<Entry>,
}

impl View for Bindings {
    type V = Env;

    closed spec fn view(&self) -> Env {
        Map::new(
            |k: Seq<char>| self.keys().contains(k),
            |k: Seq<char>| self.entries@[self.keys().index_of(k)].value@,
        )
    }
}

impl Bindings {
    #[verifier::type_invariant]
    spec fn well_formed(&self) -> bool {
        self.keys().no_duplicates()
    }

    /// The bound names, in the order in which they were first bound.
    pub closed spec fn keys(&self) -> Seq<Seq<char>> {
        Seq::new(self.entries@.len(), |i: int| self.entries@[i].name@)
    }

    /// The bound names are exactly the domain of the view, each listed once.
    proof fn lemma_keys(&self)
        requires
            self.well_formed(),
        ensures
            self.keys().no_duplicates(),
            self@.dom() == self.keys().to_set(),
            self@.dom().finite(),
            self@.len() == self.keys().len(),
    {
        assert(self@.dom() =~= self.keys().to_set());
        vstd::seq_lib::seq_to_set_is_finite(self.keys());
        self.keys().unique_seq_to_set();
    }

    /// The environments that a sequence of bindings stands for, one for one.
    pub open spec fn views(found: Seq<Bindings>) -> Seq<Env> {
        Seq::new(found.len(), |i: int| found[i]@)
    }

    /// The environment that binds nothing.
    pub fn new() -> (r: Bindings)
        ensures
            r@ == Map::<Seq<char>, Term>::empty(),
            r.keys().len() == 0,
    {
        let r = Bindings { entries: Vec::new() };
        assert(r@ =~= Map::<Seq<char>, Term>::empty());
        r
    }

    /// The number of bound names.
    pub fn len(&self) -> (n: usize)
        ensures
            n == self.keys().len(),
            n == self@.len(),
            self@.dom().finite(),
            self.keys().no_duplicates(),
            self@.dom() == self.keys().to_set(),
    {
        proof {
            use_type_invariant(self);
            self.lemma_keys();
        }
        self.entries.len()
    }

    /// Whether no name is bound.
    pub fn is_empty(&self) -> (b: bool)
        ensures
            b == (self@ == Map::<Seq<char>, Term>::empty()),
    {
        proof {
            use_type_invariant(self);
            if self.entries@.len() == 0 {
                assert(self@ =~= Map::<Seq<char>, Term>::empty());
            } else {
                assert(self.keys()[0] == self.entries@[0].name@);
                assert(self@.contains_key(self.keys()[0]));
            }
        }
        self.entries.len() == 0
    }

    /// The name of the `i`-th entry.
    pub fn key_at(&self, i: usize) -> (name: &String)
        requires
            i < self.keys().len(),
        ensures
            name@ == self.keys()[i as int],
            self@.contains_key(name@),
    {
        proof {
            use_type_invariant(self);
        }
        &self.entries[i].name
    }

    /// The value of the `i`-th entry.
    pub fn value_at(&self, i: usize) -> (value: &Value)
        requires
            i < self.keys().len(),
        ensures
            self@.contains_key(self.keys()[i as int]),
            value@ == self@[self.keys()[i as int]],
    {
        proof {
            use_type_invariant(self);
            let k = self.keys()[i as int];
            assert(self.keys().contains(k));
        }
        &self.entries[i].value
    }

    /// The position of `name` among the entries, if it is bound.
    fn find(&self, name: &String) -> (r: Option<usize>)
        ensures
            match r {
                Some(i) => i < self.keys().len() && self.keys()[i as int] == name@,
                None => !self.keys().contains(name@),
            },
    {
        let mut i: usize = 0;
        while i < self.entries.len()
            invariant
                i <= self.entries@.len(),
                forall|j: int| 0 <= j < i ==> self.keys()[j] != name@,
            decreases self.entries@.len() - i,
        {
            if self.entries[i].name == *name {
                return Some(i);
            }
            i += 1;
        }
        None
    }

    /// Whether `name` is bound.
    pub fn contains_key(&self, name: &String) -> (b: bool)
        ensures
            b == self@.contains_key(name@),
    {
        self.find(name).is_some()
    }

    /// The value bound to `name`, if any.
    pub fn get(&self, name: &String) -> (r: Option<&Value>)
        ensures
            match r {
                Some(value) => self@.contains_key(name@) && value@ == self@[name@],
                None => !self@.contains_key(name@),
            },
    {
        proof {
            use_type_invariant(self);
        }
        match self.find(name) {
            Some(i) => {
                assert(self.keys().contains(name@));
                Some(&self.entries[i].value)
            },
            None => None,
        }
    }

    /// Binds `name` to `value`, replacing what `name` was bound to before.
    pub fn insert(&mut self, name: String, value: Value)
        ensures
            final(self)@ == old(self)@.insert(name@, value@),
            final(self).keys() == if old(self)@.contains_key(name@) {
                old(self).keys()
            } else {
                old(self).keys().push(name@)
            },
    {
        proof {
            use_type_invariant(&*self);
        }
        let ghost before = *self;
        let found = self.find(&name);
        let mut entries: Vec<Entry> = Vec::new();
        core::mem::swap(&mut self.entries, &mut entries);
        match found {
            Some(i) => {
                entries[i] = Entry { name, value };
            },
            None => {
                entries.push(Entry { name, value });
            },
        }
        let ghost keys = Seq::new(entries@.len(), |i: int| entries@[i].name@);
        proof {
            if found is Some {
                assert(keys =~= before.keys());
            } else {
                assert(keys =~= before.keys().push(name@));
            }
            assert(keys.no_duplicates());
        }
        core::mem::swap(&mut self.entries, &mut entries);
        proof {
            assert(self.keys() == keys);
            match found {
                Some(i) => {
                    assert(before.keys().contains(name@));
                    assert forall|k: Seq<char>| #[trigger] self@.contains_key(k) implies self@[k]
                        == before@.insert(name@, value@)[k] by {
                        let j = self.keys().index_of(k);
                        if k != name@ {
                            assert(j != i);
                        }
                    }
                    assert(self@ =~= before@.insert(name@, value@));
                },
                None => {
                    let n = before.keys().len() as int;
                    assert(self.keys()[n] == name@);
                    assert forall|k: Seq<char>| #[trigger]
                        before@.insert(name@, value@).contains_key(k) implies self@.contains_key(
                        k,
                    ) && self@[k] == before@.insert(name@, value@)[k] by {
                        if k == name@ {
                            assert(self.keys().contains(k));
                            assert(self.keys().index_of(k) == n);
                        } else {
                            let j = before.keys().index_of(k);
                            assert(self.keys()[j] == k);
                            assert(self.keys().contains(k));
                            assert(self.keys().index_of(k) == j);
                        }
                    }
                    assert forall|k: Seq<char>| #[trigger] self@.contains_key(k) implies before@.insert(
                        name@,
                        value@,
                    ).contains_key(k) by {
                        let j = self.keys().index_of(k);
                        if j < n {
                            assert(before.keys()[j] == k);
                        }
                    }
                    assert(self@ =~= before@.insert(name@, value@));
                },
            }
        }
    }

    /// Binds in `self` every name that `other` binds, to the value it has
    /// there. Names that only `self` binds keep their values.
    pub fn extend(&mut self, other: &Bindings)
        ensures
            final(self)@ == old(self)@.union_prefer_right(other@),
    {
        let ghost before = self@;
        let n = other.len();
        let mut i: usize = 0;
        while i < n
            invariant
                n == other.keys().len(),
                other.keys().no_duplicates(),
                other@.dom() == other.keys().to_set(),
                i <= n,
                self@ == before.union_prefer_right(
                    other@.restrict(other.keys().take(i as int).to_set()),
                ),
            decreases n - i,
        {
            let ghost prev = self@;
            let name = other.key_at(i).clone();
            let value = other.value_at(i).clone();
            self.insert(name, value);
            proof {
                let k = other.keys()[i as int];
                let done = other.keys().take(i as int).to_set();
                let next = other.keys().take(i + 1).to_set();
                assert(other.keys().take(i + 1) =~= other.keys().take(i as int).push(k));
                assert(next =~= done.insert(k)) by {
                    assert forall|x: Seq<char>| next.contains(x) implies done.insert(k).contains(
                        x,
                    ) by {
                        let j = other.keys().take(i + 1).index_of(x);
                        if j < i {
                            assert(other.keys().take(i as int)[j] == x);
                        }
                    }
                    assert forall|x: Seq<char>| done.insert(k).contains(x) implies next.contains(
                        x,
                    ) by {
                        if x == k {
                            assert(other.keys().take(i + 1)[i as int] == x);
                        } else {
                            let j = other.keys().take(i as int).index_of(x);
                            assert(other.keys().take(i + 1)[j] == x);
                        }
                    }
                }
                assert(self@ =~= before.union_prefer_right(other@.restrict(next)));
            }
            i += 1;
        }
        proof {
            assert(other.keys().take(n as int) =~= other.keys());
            assert(other@.restrict(other.keys().to_set()) =~= other@);
        }
    }
}

impl Clone for Bindings {
    fn clone(&self) -> (r: Bindings)
        ensures
            r@ == self@,
            r.keys() == self.keys(),
    {
        proof {
            use_type_invariant(self);
        }
        let mut entries: Vec<Entry> = Vec::new();
        let mut i: usize = 0;
        while i < self.entries.len()
            invariant
                i <= self.entries@.len(),
                entries@.len() == i,
                forall|j: int| 0 <= j < i ==> entries@[j].name@ == self.entries@[j].name@,
                forall|j: int| 0 <= j < i ==> entries@[j].value@ == self.entries@[j].value@,
            decreases self.entries@.len() - i,
        {
            entries.push(
                Entry { name: self.entries[i].name.clone(), value: self.entries[i].value.clone() },
            );
            i += 1;
        }
        let ghost keys = Seq::new(entries@.len(), |i: int| entries@[i].name@);
        assert(keys =~= self.keys());
        let r = Bindings { entries };
        assert(r.keys() =~= self.keys());
        assert(r@ =~= self@);
        r
    }
}

} // verus!
