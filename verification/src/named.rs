//! A small map from names to values that keeps its names in the order they
//! were first set.
use vstd::prelude::*;
use crate::text::str_eq;

verus! {

/// The names of a list of named values, in order.
pub open spec fn named_keys<V>(v: Seq<(String, V)>) -> Seq<Seq<char>> {
    v.map_values(|e: (String, V)| e.0@)
}

/// The values of a list of named values, by name: later entries win.
pub open spec fn named_map<V>(v: Seq<(String, V)>) -> Map<Seq<char>, V>
    decreases v.len(),
{
    if v.len() == 0 {
        Map::empty()
    } else {
        named_map(v.drop_last()).insert(v.last().0@, v.last().1)
    }
}

/// No name is listed twice.
pub open spec fn distinct_names<V>(v: Seq<(String, V)>) -> bool {
    forall|i: int, j: int| 0 <= i < j < v.len() ==> (#[trigger] v[i]).0@ != (#[trigger] v[j]).0@
}

/// With distinct names, the map holds exactly the listed names, each with
/// its value.
pub proof fn lemma_named_map<V>(v: Seq<(String, V)>)
    requires
        distinct_names(v),
    ensures
        forall|k: Seq<char>| #[trigger] named_map(v).contains_key(k) <==> named_keys(v).contains(k),
        forall|i: int| 0 <= i < v.len() ==> #[trigger] named_map(v)[v[i].0@] == v[i].1,
        named_keys(v).len() == v.len(),
        forall|i: int| 0 <= i < v.len() ==> #[trigger] named_keys(v)[i] == v[i].0@,
    decreases v.len(),
{
    if v.len() > 0 {
        let w = v.drop_last();
        assert(distinct_names(w));
        lemma_named_map(w);
        assert(named_map(v) == named_map(w).insert(v.last().0@, v.last().1));
        assert(named_keys(v).len() == v.len());
        assert forall|k: Seq<char>| #[trigger] named_map(v).contains_key(k) <==> named_keys(v).contains(k) by {
            if named_map(v).contains_key(k) {
                if k == v.last().0@ {
                    assert(named_keys(v)[v.len() - 1] == k);
                } else {
                    assert(named_map(w).contains_key(k));
                    assert(named_keys(w).contains(k));
                    let i = choose|i: int| 0 <= i < named_keys(w).len() && named_keys(w)[i] == k;
                    assert(w[i] == v[i]);
                    assert(named_keys(v)[i] == k);
                }
            }
            if named_keys(v).contains(k) {
                let i = choose|i: int| 0 <= i < named_keys(v).len() && named_keys(v)[i] == k;
                if i < v.len() - 1 {
                    assert(named_keys(w)[i] == k);
                } else {
                    assert(k == v.last().0@);
                }
            }
        }
        assert forall|i: int| 0 <= i < v.len() implies #[trigger] named_map(v)[v[i].0@] == v[i].1 by {
            if i < v.len() - 1 {
                assert(w[i] == v[i]);
                assert(v[i].0@ != v.last().0@);
            }
        }
    }
}

/// Values by name, the names kept in the order they were first set.
#[derive(Debug)]
pub struct NamedValues<V> {
    entries: Vec<(String, V)>,
}

impl<V> NamedValues<V> {
    /// The names, in the order they were first set.
    pub closed spec fn keys(&self) -> Seq<Seq<char>> {
        named_keys(self.entries@)
    }

    /// The values by name.
    pub closed spec fn map(&self) -> Map<Seq<char>, V> {
        named_map(self.entries@)
    }

    /// No name twice.
    pub closed spec fn wf(&self) -> bool {
        distinct_names(self.entries@)
    }

    /// The names are those of the map, each once.
    pub proof fn lemma_keys(&self)
        requires
            self.wf(),
        ensures
            forall|k: Seq<char>| #[trigger] self.map().contains_key(k) <==> self.keys().contains(k),
            forall|i: int, j: int| 0 <= i < j < self.keys().len() ==> self.keys()[i] != self.keys()[j],
    {
        lemma_named_map(self.entries@);
    }

    /// No names.
    pub fn new() -> (r: Self)
        ensures
            r.wf(),
            r.keys() == Seq::<Seq<char>>::empty(),
            r.map() == Map::<Seq<char>, V>::empty(),
    {
        let r = NamedValues { entries: Vec::new() };
        assert(named_keys(r.entries@) =~= Seq::<Seq<char>>::empty());
        r
    }

    fn find(&self, name: &str) -> (r: Option<usize>)
        ensures
            match r {
                Some(i) => i < self.entries@.len() && self.entries@[i as int].0@ == name@,
                None => forall|i: int| 0 <= i < self.entries@.len() ==> #[trigger] self.entries@[i].0@ != name@,
            },
    {
        let mut i: usize = 0;
        while i < self.entries.len()
            invariant
                i <= self.entries@.len(),
                forall|j: int| 0 <= j < i ==> #[trigger] self.entries@[j].0@ != name@,
            decreases self.entries.len() - i,
        {
            if str_eq(self.entries[i].0.as_str(), name) {
                return Some(i);
            }
            i = i + 1;
        }
        None
    }

    /// The value of the name, if it is set.
    pub fn get(&self, name: &str) -> (r: Option<&V>)
        requires
            self.wf(),
        ensures
            match r {
                Some(v) => self.map().contains_key(name@) && *v == self.map()[name@],
                None => !self.map().contains_key(name@),
            },
    {
        proof { lemma_named_map(self.entries@); }
        match self.find(name) {
            Some(i) => {
                proof {
                    assert(named_keys(self.entries@)[i as int] == name@);
                    assert(named_map(self.entries@)[self.entries@[i as int].0@] == self.entries@[i as int].1);
                }
                Some(&self.entries[i].1)
            },
            None => {
                proof {
                    if self.keys().contains(name@) {
                        let i = choose|i: int| 0 <= i < self.keys().len() && self.keys()[i] == name@;
                        assert(self.entries@[i].0@ == name@);
                    }
                }
                None
            },
        }
    }

    /// Sets the value of the name; a new name goes last.
    pub fn insert(&mut self, name: String, value: V)
        requires
            old(self).wf(),
        ensures
            final(self).wf(),
            final(self).map() == old(self).map().insert(name@, value),
            final(self).keys() == if old(self).keys().contains(name@) {
                old(self).keys()
            } else {
                old(self).keys().push(name@)
            },
    {
        proof { lemma_named_map(self.entries@); }
        let ghost k = name@;
        let ghost old_v = self.entries@;
        match self.find(name.as_str()) {
            Some(i) => {
                let ghost val = value;
                self.entries.set(i, (name, value));
                proof {
                    let v = self.entries@;
                    assert(distinct_names(v)) by {
                        assert forall|a: int, b: int| 0 <= a < b < v.len() implies (#[trigger] v[a]).0@ != (#[trigger] v[b]).0@ by {
                            assert(old_v[a].0@ == v[a].0@ && old_v[b].0@ == v[b].0@);
                        }
                    }
                    lemma_named_map(v);
                    assert(named_keys(v) =~= named_keys(old_v));
                    assert(named_keys(old_v)[i as int] == k);
                    assert(named_map(v) =~= named_map(old_v).insert(k, val)) by {
                        assert forall|x: Seq<char>| #[trigger] named_map(v).contains_key(x)
                            <==> named_map(old_v).insert(k, val).contains_key(x) by {
                        }
                        assert forall|x: Seq<char>| #[trigger] named_map(v).contains_key(x)
                            implies named_map(v)[x] == named_map(old_v).insert(k, val)[x] by {
                            let j = choose|j: int| 0 <= j < named_keys(v).len() && named_keys(v)[j] == x;
                            assert(named_map(v)[v[j].0@] == v[j].1);
                            if j != i {
                                assert(named_map(old_v)[old_v[j].0@] == old_v[j].1);
                            }
                        }
                    }
                }
            },
            None => {
                self.entries.push((name, value));
                proof {
                    let v = self.entries@;
                    assert(v.drop_last() == old_v);
                    assert(distinct_names(v)) by {
                        assert forall|a: int, b: int| 0 <= a < b < v.len() implies (#[trigger] v[a]).0@ != (#[trigger] v[b]).0@ by {
                            if b == v.len() - 1 {
                                assert(old_v[a].0@ != k);
                            } else {
                                assert(old_v[a] == v[a] && old_v[b] == v[b]);
                            }
                        }
                    }
                    assert(named_keys(v) =~= named_keys(old_v).push(k));
                    if named_keys(old_v).contains(k) {
                        let j = choose|j: int| 0 <= j < named_keys(old_v).len() && named_keys(old_v)[j] == k;
                        assert(old_v[j].0@ == k);
                    }
                }
            },
        }
    }

    /// Removes the name and gives back its value, if it was set.
    pub fn remove(&mut self, name: &str) -> (r: Option<V>)
        requires
            old(self).wf(),
        ensures
            final(self).wf(),
            final(self).map() == old(self).map().remove(name@),
            match r {
                Some(v) => old(self).map().contains_key(name@) && v == old(self).map()[name@],
                None => !old(self).map().contains_key(name@),
            },
    {
        proof { lemma_named_map(self.entries@); }
        let ghost old_v = self.entries@;
        match self.find(name) {
            Some(i) => {
                proof {
                    assert(named_keys(old_v)[i as int] == name@);
                    assert(named_map(old_v)[old_v[i as int].0@] == old_v[i as int].1);
                }
                let (_, value) = self.entries.remove(i);
                proof {
                    let v = self.entries@;
                    assert(v =~= old_v.remove(i as int));
                    assert(distinct_names(v)) by {
                        assert forall|a: int, b: int| 0 <= a < b < v.len() implies (#[trigger] v[a]).0@ != (#[trigger] v[b]).0@ by {
                            let a2 = if a < i { a } else { a + 1 };
                            let b2 = if b < i { b } else { b + 1 };
                            assert(v[a] == old_v[a2] && v[b] == old_v[b2]);
                        }
                    }
                    lemma_named_map(v);
                    assert(named_map(v) =~= named_map(old_v).remove(name@)) by {
                        assert forall|x: Seq<char>| #[trigger] named_map(v).contains_key(x)
                            <==> named_map(old_v).remove(name@).contains_key(x) by {
                            if named_keys(v).contains(x) {
                                let j = choose|j: int| 0 <= j < named_keys(v).len() && named_keys(v)[j] == x;
                                let j2 = if j < i { j } else { j + 1 };
                                assert(v[j] == old_v[j2]);
                                assert(named_keys(old_v)[j2] == x);
                                assert(x != name@);
                            }
                            if named_map(old_v).remove(name@).contains_key(x) {
                                let j = choose|j: int| 0 <= j < named_keys(old_v).len() && named_keys(old_v)[j] == x;
                                assert(j != i);
                                let j2 = if j < i { j } else { j - 1 };
                                assert(v[j2] == old_v[j]);
                                assert(named_keys(v)[j2] == x);
                            }
                        }
                        assert forall|x: Seq<char>| #[trigger] named_map(v).contains_key(x)
                            implies named_map(v)[x] == named_map(old_v).remove(name@)[x] by {
                            let j = choose|j: int| 0 <= j < named_keys(v).len() && named_keys(v)[j] == x;
                            let j2 = if j < i { j } else { j + 1 };
                            assert(v[j] == old_v[j2]);
                            assert(named_map(v)[v[j].0@] == v[j].1);
                            assert(named_map(old_v)[old_v[j2].0@] == old_v[j2].1);
                        }
                    }
                }
                Some(value)
            },
            None => {
                proof {
                    assert(named_map(old_v).remove(name@) =~= named_map(old_v)) by {
                        if named_map(old_v).contains_key(name@) {
                            let j = choose|j: int| 0 <= j < named_keys(old_v).len() && named_keys(old_v)[j] == name@;
                            assert(old_v[j].0@ == name@);
                        }
                    }
                    if named_map(old_v).contains_key(name@) {
                        let j = choose|j: int| 0 <= j < named_keys(old_v).len() && named_keys(old_v)[j] == name@;
                        assert(old_v[j].0@ == name@);
                    }
                }
                None
            },
        }
    }

    /// Removes every name.
    pub fn clear(&mut self)
        ensures
            final(self).wf(),
            final(self).keys() == Seq::<Seq<char>>::empty(),
            final(self).map() == Map::<Seq<char>, V>::empty(),
    {
        self.entries.clear();
        assert(named_keys(self.entries@) =~= Seq::<Seq<char>>::empty());
    }

    /// The number of names.
    pub fn len(&self) -> (r: usize)
        ensures
            r == self.keys().len(),
    {
        self.entries.len()
    }

    /// The name and the value at a place of the order.
    pub fn entry(&self, i: usize) -> (r: (&String, &V))
        requires
            self.wf(),
            i < self.keys().len(),
        ensures
            r.0@ == self.keys()[i as int],
            *r.1 == self.map()[self.keys()[i as int]],
    {
        proof { lemma_named_map(self.entries@); }
        (&self.entries[i].0, &self.entries[i].1)
    }
}

impl NamedValues<String> {
    /// A copy.
    pub fn copy(&self) -> (r: Self)
        ensures
            r.wf() == self.wf(),
            r.keys() == self.keys(),
            r.map() == self.map(),
    {
        let mut entries: Vec<(String, String)> = Vec::new();
        let mut i: usize = 0;
        while i < self.entries.len()
            invariant
                i <= self.entries@.len(),
                entries@ == self.entries@.take(i as int),
            decreases self.entries.len() - i,
        {
            let k = self.entries[i].0.clone();
            let v = self.entries[i].1.clone();
            entries.push((k, v));
            i = i + 1;
            assert(entries@ =~= self.entries@.take(i as int));
        }
        assert(self.entries@.take(i as int) =~= self.entries@);
        NamedValues { entries }
    }
}

} // verus!
