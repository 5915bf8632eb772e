use vstd::prelude::*;

use crate::rel::same_text;

verus! {

/// Whether cloning a `V` keeps its view.
pub open spec fn clone_keeps_view<V: Clone + View>() -> bool {
    forall|a: V, b: V| #[trigger] cloned::<V>(a, b) ==> b@ == a@
}

/// A finite map from names to values, in which each name occurs once.
#[derive(Debug)]
pub struct NameMap<V> {
    entries: Vec<(String, V)>,
}

impl<V> NameMap<V> {
    #[verifier::type_invariant]
    closed spec fn names_unique(&self) -> bool {
        forall|i: int, j: int|
            0 <= i < j < self.entries.len() ==> #[trigger] self.entries@[i].0@
                != #[trigger] self.entries@[j].0@
    }

    /// The index of the entry for `name`.
    closed spec fn index_of(&self, name: Seq<char>) -> int {
        choose|i: int| 0 <= i < self.entries.len() && #[trigger] self.entries@[i].0@ == name
    }

    closed spec fn has(&self, name: Seq<char>) -> bool {
        exists|i: int| 0 <= i < self.entries.len() && #[trigger] self.entries@[i].0@ == name
    }
}

impl<V: View> NameMap<V> {
    pub closed spec fn map(&self) -> Map<Seq<char>, V::V> {
        Map::new(|k: Seq<char>| self.has(k), |k: Seq<char>| self.entries@[self.index_of(k)].1@)
    }

    proof fn lemma_entry(&self, i: int)
        requires
            self.names_unique(),
            0 <= i < self.entries.len(),
        ensures
            self.map().contains_key(self.entries@[i].0@),
            self.map()[self.entries@[i].0@] == self.entries@[i].1@,
    {
        let k = self.entries@[i].0@;
        assert(self.has(k));
        let j = self.index_of(k);
        if j != i {
            if j < i {
                assert(self.entries@[j].0@ != self.entries@[i].0@);
            } else {
                assert(self.entries@[i].0@ != self.entries@[j].0@);
            }
        }
    }

    pub fn new() -> (r: Self)
        ensures
            r@ == Map::<Seq<char>, V::V>::empty(),
    {
        let r = NameMap { entries: Vec::new() };
        assert(r.map() =~= Map::<Seq<char>, V::V>::empty());
        r
    }

    fn find(&self, name: &str) -> (r: Option<usize>)
        ensures
            match r {
                Some(i) => i < self.entries.len() && self.entries@[i as int].0@ == name@,
                None => !self.has(name@),
            },
    {
        let mut i: usize = 0;
        while i < self.entries.len()
            invariant
                i <= self.entries.len(),
                forall|j: int| 0 <= j < i ==> #[trigger] self.entries@[j].0@ != name@,
            decreases self.entries.len() - i,
        {
            if same_text(&self.entries[i].0, name) {
                return Some(i);
            }
            i = i + 1;
        }
        None
    }

    /// The value stored under `name`.
    pub fn get(&self, name: &str) -> (r: Option<&V>)
        ensures
            match r {
                Some(v) => self@.contains_key(name@) && v@ == self@[name@],
                None => !self@.contains_key(name@),
            },
    {
        proof {
            use_type_invariant(self);
        }
        match self.find(name) {
            Some(i) => {
                proof {
                    self.lemma_entry(i as int);
                }
                Some(&self.entries[i].1)
            },
            None => None,
        }
    }

    /// Stores `value` under `name`, in place of what was stored there.
    pub fn insert(&mut self, name: String, value: V)
        ensures
            final(self)@ == old(self)@.insert(name@, value@),
    {
        proof {
            use_type_invariant(&*self);
        }
        let ghost old_self = *self;
        let ghost k = name@;
        let ghost val = value@;
        match self.find(name.as_str()) {
            Some(i) => {
                let mut entries = Vec::new();
                std::mem::swap(&mut entries, &mut self.entries);
                entries.set(i, (name, value));
                self.entries = entries;
                proof {
                    assert forall|a: int, b: int|
                        0 <= a < b < self.entries.len() implies #[trigger] self.entries@[a].0@
                        != #[trigger] self.entries@[b].0@ by {
                        assert(old_self.entries@[a].0@ != old_self.entries@[b].0@);
                    }
                    assert(self.names_unique());
                    assert forall|x: Seq<char>| #[trigger] self.map().contains_key(x)
                        == old_self.map().insert(k, val).contains_key(x) by {
                        if self.has(x) {
                            let j = choose|j: int|
                                0 <= j < self.entries.len() && #[trigger] self.entries@[j].0@ == x;
                            if j != i {
                                assert(old_self.entries@[j].0@ == x);
                            }
                        }
                        if old_self.has(x) {
                            let j = choose|j: int|
                                0 <= j < old_self.entries.len() && #[trigger] old_self.entries@[j].0@
                                    == x;
                            assert(self.entries@[j].0@ == x);
                        }
                    }
                    assert forall|x: Seq<char>| #[trigger] self.map().contains_key(x) implies
                        self.map()[x] == old_self.map().insert(k, val)[x] by {
                        let j = choose|j: int|
                            0 <= j < self.entries.len() && #[trigger] self.entries@[j].0@ == x;
                        self.lemma_entry(j);
                        if j != i {
                            old_self.lemma_entry(j);
                        }
                    }
                    assert(self.map() =~= old_self.map().insert(k, val));
                }
            },
            None => {
                let mut entries = Vec::new();
                std::mem::swap(&mut entries, &mut self.entries);
                entries.push((name, value));
                self.entries = entries;
                proof {
                    let n = old_self.entries.len() as int;
                    assert forall|a: int, b: int|
                        0 <= a < b < self.entries.len() implies #[trigger] self.entries@[a].0@
                        != #[trigger] self.entries@[b].0@ by {
                        if b == n {
                            assert(old_self.entries@[a].0@ != k);
                        } else {
                            assert(old_self.entries@[a].0@ != old_self.entries@[b].0@);
                        }
                    }
                    assert(self.names_unique());
                    assert forall|x: Seq<char>| #[trigger] self.map().contains_key(x)
                        == old_self.map().insert(k, val).contains_key(x) by {
                        if self.has(x) {
                            let j = choose|j: int|
                                0 <= j < self.entries.len() && #[trigger] self.entries@[j].0@ == x;
                            if j != n {
                                assert(old_self.entries@[j].0@ == x);
                            }
                        }
                        if old_self.has(x) {
                            let j = choose|j: int|
                                0 <= j < old_self.entries.len() && #[trigger] old_self.entries@[j].0@
                                    == x;
                            assert(self.entries@[j].0@ == x);
                        }
                        if x == k {
                            assert(self.entries@[n].0@ == x);
                        }
                    }
                    assert forall|x: Seq<char>| #[trigger] self.map().contains_key(x) implies
                        self.map()[x] == old_self.map().insert(k, val)[x] by {
                        let j = choose|j: int|
                            0 <= j < self.entries.len() && #[trigger] self.entries@[j].0@ == x;
                        self.lemma_entry(j);
                        if j != n {
                            old_self.lemma_entry(j);
                        }
                    }
                    assert(self.map() =~= old_self.map().insert(k, val));
                }
            },
        }
    }
}

impl<V: View> View for NameMap<V> {
    type V = Map<Seq<char>, V::V>;

    open spec fn view(&self) -> Map<Seq<char>, V::V> {
        self.map()
    }
}

impl<V: View + Clone> NameMap<V> {
    /// A copy of this map.
    pub fn duplicate(&self) -> (r: Self)
        requires
            clone_keeps_view::<V>(),
        ensures
            r@ == self@,
    {
        proof {
            use_type_invariant(self);
        }
        let mut entries: Vec<(String, V)> = Vec::new();
        let mut i: usize = 0;
        while i < self.entries.len()
            invariant
                i <= self.entries.len(),
                entries.len() == i,
                clone_keeps_view::<V>(),
                forall|j: int|
                    0 <= j < i ==> (#[trigger] entries@[j]).0@ == self.entries@[j].0@
                        && entries@[j].1@ == self.entries@[j].1@,
            decreases self.entries.len() - i,
        {
            let v = self.entries[i].1.clone();
            assert(cloned::<V>(self.entries@[i as int].1, v));
            entries.push((self.entries[i].0.clone(), v));
            i = i + 1;
        }
        let r = NameMap { entries };
        proof {
            assert forall|k: Seq<char>| #[trigger] r.map().contains_key(k) == self.map().contains_key(k) by {
                if r.has(k) {
                    let j = choose|j: int| 0 <= j < r.entries.len() && #[trigger] r.entries@[j].0@ == k;
                    assert(self.entries@[j].0@ == k);
                }
                if self.has(k) {
                    let j = choose|j: int| 0 <= j < self.entries.len() && #[trigger] self.entries@[j].0@ == k;
                    assert(r.entries@[j].0@ == k);
                }
            }
            assert forall|k: Seq<char>| #[trigger] r.map().contains_key(k) implies r.map()[k] == self.map()[k] by {
                let j = choose|j: int| 0 <= j < r.entries.len() && #[trigger] r.entries@[j].0@ == k;
                r.lemma_entry(j);
                self.lemma_entry(j);
            }
            assert(r.map() =~= self.map());
        }
        r
    }
}

}
