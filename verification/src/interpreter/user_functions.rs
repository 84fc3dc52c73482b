//! User-defined functions, `try` blocks, and the table of user functions.
use vstd::prelude::*;
use crate::text::str_eq;

verus! {

/// A function that a program defined: its name, parameters and body lines.
#[derive(Debug, Clone)]
pub struct UserFunction {
    pub name: String,
    pub parameters: Vec<String>,
    pub body: Vec<String>,
    pub is_global: bool,
}

impl UserFunction {
    /// A function with the given parts.
    pub fn new(name: String, parameters: Vec<String>, body: Vec<String>, is_global: bool) -> (r: Self)
        ensures
            r.name == name,
            r.parameters == parameters,
            r.body == body,
            r.is_global == is_global,
    {
        UserFunction { name, parameters, body, is_global }
    }
}

/// A `try`/`catch` block: the variable that receives the error message, the
/// `catch` and `finally` bodies, an identifier, its nesting level, and whether
/// it is still running.
#[derive(Debug, Clone)]
pub struct TryBlock {
    pub catch_var: Option<String>,
    pub catch_body: Vec<String>,
    pub finally_body: Option<Vec<String>>,
    pub block_id: usize,
    pub nesting_level: usize,
    pub is_active: bool,
}

impl TryBlock {
    /// A new block, active.
    pub fn new(
        catch_var: Option<String>,
        catch_body: Vec<String>,
        finally_body: Option<Vec<String>>,
        block_id: usize,
        nesting_level: usize,
    ) -> (r: Self)
        ensures
            r.catch_var == catch_var,
            r.catch_body == catch_body,
            r.finally_body == finally_body,
            r.block_id == block_id,
            r.nesting_level == nesting_level,
            r.is_active,
    {
        TryBlock { catch_var, catch_body, finally_body, block_id, nesting_level, is_active: true }
    }

    /// The block can handle an error: it is active and has a `catch` body.
    pub fn can_handle_exception(&self) -> (r: bool)
        ensures
            r == (self.is_active && self.catch_body.len() > 0),
    {
        self.is_active && !self.catch_body.is_empty()
    }

    /// Marks the block as finished; nothing else changes.
    pub fn deactivate(&mut self)
        ensures
            !final(self).is_active,
            final(self).catch_var == old(self).catch_var,
            final(self).catch_body == old(self).catch_body,
            final(self).finally_body == old(self).finally_body,
            final(self).block_id == old(self).block_id,
            final(self).nesting_level == old(self).nesting_level,
    {
        self.is_active = false;
    }
}

/// The functions of a list, by name: later entries win over earlier ones.
pub open spec fn function_map(v: Seq<UserFunction>) -> Map<Seq<char>, UserFunction>
    decreases v.len(),
{
    if v.len() == 0 {
        Map::empty()
    } else {
        function_map(v.drop_last()).insert(v.last().name@, v.last())
    }
}

/// The names in a list are all different.
pub open spec fn distinct_names(v: Seq<UserFunction>) -> bool {
    forall|i: int, j: int| 0 <= i < j < v.len() ==> (#[trigger] v[i]).name@ != (#[trigger] v[j]).name@
}

/// In a list of distinct names, the map holds exactly the listed names, each
/// with its entry.
pub proof fn lemma_function_map(v: Seq<UserFunction>)
    requires
        distinct_names(v),
    ensures
        forall|k: Seq<char>| #[trigger] function_map(v).contains_key(k) <==> exists|i: int| 0 <= i < v.len() && v[i].name@ == k,
        forall|i: int| 0 <= i < v.len() ==> #[trigger] function_map(v)[v[i].name@] == v[i],
        function_map(v).dom().finite(),
        function_map(v).dom().len() == v.len(),
    decreases v.len(),
{
    if v.len() > 0 {
        let w = v.drop_last();
        assert(distinct_names(w));
        lemma_function_map(w);
        assert(!function_map(w).contains_key(v.last().name@)) by {
            if function_map(w).contains_key(v.last().name@) {
                let i = choose|i: int| 0 <= i < w.len() && w[i].name@ == v.last().name@;
                assert(v[i].name@ == v[v.len() - 1].name@);
            }
        }
        assert forall|k: Seq<char>| #[trigger] function_map(v).contains_key(k) <==> exists|i: int| 0 <= i < v.len() && v[i].name@ == k by {
            if function_map(v).contains_key(k) && k != v.last().name@ {
                let i = choose|i: int| 0 <= i < w.len() && w[i].name@ == k;
                assert(v[i].name@ == k);
            }
            if exists|i: int| 0 <= i < v.len() && v[i].name@ == k {
                let i = choose|i: int| 0 <= i < v.len() && v[i].name@ == k;
                if i < v.len() - 1 {
                    assert(w[i].name@ == k);
                }
            }
        }
        assert forall|i: int| 0 <= i < v.len() implies #[trigger] function_map(v)[v[i].name@] == v[i] by {
            if i < v.len() - 1 {
                assert(w[i] == v[i]);
            }
        }
    }
}

/// A function just added is what its name finds, and removing it then
/// gives back the table as it was before (when the name was new).
pub proof fn law_add_then_find_then_remove(m: Map<Seq<char>, UserFunction>, f: UserFunction)
    ensures
        m.insert(f.name@, f).contains_key(f.name@),
        m.insert(f.name@, f)[f.name@] == f,
        !m.contains_key(f.name@) ==> m.insert(f.name@, f).remove(f.name@) == m,
        !m.insert(f.name@, f).remove(f.name@).contains_key(f.name@),
{
    if !m.contains_key(f.name@) {
        assert(m.insert(f.name@, f).remove(f.name@) =~= m);
    }
}

/// The table of user-defined functions, each under its name.
pub struct UserFunctionManager {
    functions: Vec<UserFunction>,
}

impl UserFunctionManager {
    /// The functions, by name.
    pub closed spec fn view_map(&self) -> Map<Seq<char>, UserFunction> {
        function_map(self.functions@)
    }

    /// No name is listed twice.
    pub closed spec fn wf(&self) -> bool {
        distinct_names(self.functions@)
    }

    /// An empty table.
    pub fn new() -> (r: Self)
        ensures
            r.wf(),
            r.view_map() == Map::<Seq<char>, UserFunction>::empty(),
    {
        UserFunctionManager { functions: Vec::new() }
    }

    fn find(&self, name: &str) -> (r: Option<usize>)
        requires
            self.wf(),
        ensures
            match r {
                Some(i) => i < self.functions@.len() && self.functions@[i as int].name@ == name@,
                None => forall|i: int| 0 <= i < self.functions@.len() ==> #[trigger] self.functions@[i].name@ != name@,
            },
    {
        let mut i: usize = 0;
        while i < self.functions.len()
            invariant
                i <= self.functions@.len(),
                forall|j: int| 0 <= j < i ==> #[trigger] self.functions@[j].name@ != name@,
            decreases self.functions.len() - i,
        {
            if str_eq(self.functions[i].name.as_str(), name) {
                return Some(i);
            }
            i = i + 1;
        }
        None
    }

    /// Adds a function under its name, replacing any function of that name.
    pub fn add_function(&mut self, function: UserFunction)
        requires
            old(self).wf(),
        ensures
            final(self).wf(),
            final(self).view_map() == old(self).view_map().insert(function.name@, function),
    {
        proof { lemma_function_map(self.functions@); }
        let ghost name = function.name@;
        match self.find(function.name.as_str()) {
            Some(i) => {
                let ghost old_v = self.functions@;
                self.functions.set(i, function);
                proof {
                    let v = self.functions@;
                    assert(distinct_names(v)) by {
                        assert forall|a: int, b: int| 0 <= a < b < v.len() implies (#[trigger] v[a]).name@ != (#[trigger] v[b]).name@ by {
                            assert(old_v[a].name@ == v[a].name@ && old_v[b].name@ == v[b].name@);
                        }
                    }
                    lemma_function_map(v);
                    assert(function_map(v) =~= function_map(old_v).insert(name, function)) by {
                        assert forall|k: Seq<char>| #[trigger] function_map(v).contains_key(k) <==> function_map(old_v).insert(name, function).contains_key(k) by {
                            if exists|j: int| 0 <= j < v.len() && v[j].name@ == k {
                                let j = choose|j: int| 0 <= j < v.len() && v[j].name@ == k;
                                assert(old_v[j].name@ == k);
                            }
                            if exists|j: int| 0 <= j < old_v.len() && old_v[j].name@ == k {
                                let j = choose|j: int| 0 <= j < old_v.len() && old_v[j].name@ == k;
                                assert(v[j].name@ == k);
                            }
                        }
                        assert forall|k: Seq<char>| #[trigger] function_map(v).contains_key(k) implies function_map(v)[k] == function_map(old_v).insert(name, function)[k] by {
                            let j = choose|j: int| 0 <= j < v.len() && v[j].name@ == k;
                            assert(function_map(v)[v[j].name@] == v[j]);
                            if j != i {
                                assert(function_map(old_v)[old_v[j].name@] == old_v[j]);
                            }
                        }
                    }
                }
            },
            None => {
                let ghost old_v = self.functions@;
                self.functions.push(function);
                proof {
                    let v = self.functions@;
                    assert(v.drop_last() == old_v);
                    assert(distinct_names(v)) by {
                        assert forall|a: int, b: int| 0 <= a < b < v.len() implies (#[trigger] v[a]).name@ != (#[trigger] v[b]).name@ by {
                            if b == v.len() - 1 {
                                assert(old_v[a].name@ != name);
                            } else {
                                assert(old_v[a] == v[a] && old_v[b] == v[b]);
                            }
                        }
                    }
                }
            },
        }
    }

    /// The function of that name, if the table has one.
    pub fn get_function(&self, name: &str) -> (r: Option<&UserFunction>)
        requires
            self.wf(),
        ensures
            match r {
                Some(f) => self.view_map().contains_key(name@) && *f == self.view_map()[name@],
                None => !self.view_map().contains_key(name@),
            },
    {
        proof { lemma_function_map(self.functions@); }
        match self.find(name) {
            Some(i) => Some(&self.functions[i]),
            None => None,
        }
    }

    /// Whether the table has a function of that name.
    pub fn contains_function(&self, name: &str) -> (r: bool)
        requires
            self.wf(),
        ensures
            r == self.view_map().contains_key(name@),
    {
        proof { lemma_function_map(self.functions@); }
        self.find(name).is_some()
    }

    /// All the functions, each name once.
    pub fn get_all_functions(&self) -> (r: &Vec<UserFunction>)
        requires
            self.wf(),
        ensures
            distinct_names(r@),
            function_map(r@) == self.view_map(),
    {
        &self.functions
    }

    /// Removes the function of that name and returns it, if there is one.
    pub fn remove_function(&mut self, name: &str) -> (r: Option<UserFunction>)
        requires
            old(self).wf(),
        ensures
            final(self).wf(),
            final(self).view_map() == old(self).view_map().remove(name@),
            match r {
                Some(f) => old(self).view_map().contains_key(name@) && f == old(self).view_map()[name@],
                None => !old(self).view_map().contains_key(name@),
            },
    {
        proof { lemma_function_map(self.functions@); }
        match self.find(name) {
            Some(i) => {
                let ghost old_v = self.functions@;
                let f = self.functions.remove(i);
                proof {
                    let v = self.functions@;
                    assert(v == old_v.remove(i as int));
                    assert(distinct_names(v)) by {
                        assert forall|a: int, b: int| 0 <= a < b < v.len() implies (#[trigger] v[a]).name@ != (#[trigger] v[b]).name@ by {
                            let a0 = if a < i { a } else { a + 1 };
                            let b0 = if b < i { b } else { b + 1 };
                            assert(v[a] == old_v[a0] && v[b] == old_v[b0]);
                        }
                    }
                    lemma_function_map(v);
                    assert(function_map(v) =~= function_map(old_v).remove(name@)) by {
                        assert forall|k: Seq<char>| #[trigger] function_map(v).contains_key(k) <==> function_map(old_v).remove(name@).contains_key(k) by {
                            if exists|j: int| 0 <= j < v.len() && v[j].name@ == k {
                                let j = choose|j: int| 0 <= j < v.len() && v[j].name@ == k;
                                let j0 = if j < i { j } else { j + 1 };
                                assert(old_v[j0].name@ == k);
                                assert(j0 != i);
                            }
                            if function_map(old_v).remove(name@).contains_key(k) {
                                let j = choose|j: int| 0 <= j < old_v.len() && old_v[j].name@ == k;
                                assert(j != i);
                                let j1 = if j < i { j } else { j - 1 };
                                assert(v[j1].name@ == k);
                            }
                        }
                        assert forall|k: Seq<char>| #[trigger] function_map(v).contains_key(k) implies function_map(v)[k] == function_map(old_v).remove(name@)[k] by {
                            let j = choose|j: int| 0 <= j < v.len() && v[j].name@ == k;
                            let j0 = if j < i { j } else { j + 1 };
                            assert(function_map(v)[v[j].name@] == v[j]);
                            assert(function_map(old_v)[old_v[j0].name@] == old_v[j0]);
                        }
                    }
                }
                Some(f)
            },
            None => {
                proof {
                    assert(function_map(self.functions@).remove(name@) =~= function_map(self.functions@));
                }
                None
            },
        }
    }

    /// Removes every function.
    pub fn clear(&mut self)
        requires
            old(self).wf(),
        ensures
            final(self).wf(),
            final(self).view_map() == Map::<Seq<char>, UserFunction>::empty(),
    {
        self.functions.clear();
    }
}

impl Default for UserFunctionManager {
    fn default() -> (r: Self)
        ensures
            r.wf(),
            r.view_map() == Map::<Seq<char>, UserFunction>::empty(),
    {
        Self::new()
    }
}

} // verus!
