//! Variables in scopes: the global scope, a stack of function scopes and a
//! stack of loop scopes.
use vstd::prelude::*;
use crate::text::{decimal, decimal_string, owned, push_string, str_eq};
use crate::value::{Value, ValueView};

verus! {

/// The variables of a list of entries, by name: later entries win.
pub open spec fn entries_map(v: Seq<(String, Value)>) -> Map<Seq<char>, ValueView>
    decreases v.len(),
{
    if v.len() == 0 {
        Map::empty()
    } else {
        entries_map(v.drop_last()).insert(v.last().0@, v.last().1@)
    }
}

/// The names in a list of entries are all different.
pub open spec fn distinct_keys(v: Seq<(String, Value)>) -> bool {
    forall|i: int, j: int| 0 <= i < j < v.len() ==> (#[trigger] v[i]).0@ != (#[trigger] v[j]).0@
}

/// In a list of distinct names, the map holds exactly the listed names, each
/// with its value.
pub proof fn lemma_entries_map(v: Seq<(String, Value)>)
    requires
        distinct_keys(v),
    ensures
        forall|k: Seq<char>| #[trigger] entries_map(v).contains_key(k) <==> exists|i: int| 0 <= i < v.len() && v[i].0@ == k,
        forall|i: int| 0 <= i < v.len() ==> #[trigger] entries_map(v)[v[i].0@] == v[i].1@,
    decreases v.len(),
{
    if v.len() > 0 {
        let w = v.drop_last();
        assert(distinct_keys(w));
        lemma_entries_map(w);
        assert(entries_map(v) == entries_map(w).insert(v.last().0@, v.last().1@));
        assert forall|k: Seq<char>| #[trigger] entries_map(v).contains_key(k) <==> exists|i: int| 0 <= i < v.len() && v[i].0@ == k by {
            if entries_map(v).contains_key(k) && k != v.last().0@ {
                assert(entries_map(w).contains_key(k));
                let i = choose|i: int| 0 <= i < w.len() && w[i].0@ == k;
                assert(v[i].0@ == k);
            }
            if exists|i: int| 0 <= i < v.len() && v[i].0@ == k {
                let i = choose|i: int| 0 <= i < v.len() && v[i].0@ == k;
                if i < v.len() - 1 {
                    assert(w[i].0@ == k);
                }
            }
        }
        assert forall|i: int| 0 <= i < v.len() implies #[trigger] entries_map(v)[v[i].0@] == v[i].1@ by {
            if i < v.len() - 1 {
                assert(w[i] == v[i]);
                assert(v[i].0@ != v.last().0@);
            }
        }
    }
}

/// One scope: each variable name with its value.
#[derive(Debug)]
pub struct Scope {
    entries: Vec<(String, Value)>,
}

impl Scope {
    /// The variables, by name.
    pub closed spec fn view_map(&self) -> Map<Seq<char>, ValueView> {
        entries_map(self.entries@)
    }

    /// No name is listed twice.
    pub closed spec fn wf(&self) -> bool {
        distinct_keys(self.entries@)
    }

    /// An empty scope.
    pub fn new() -> (r: Self)
        ensures
            r.wf(),
            r.view_map() == Map::<Seq<char>, ValueView>::empty(),
    {
        Scope { entries: Vec::new() }
    }

    fn find(&self, name: &str) -> (r: Option<usize>)
        ensures
            match r {
                Some(i) => i < self.entries@.len() && self.entries@[i as int].0@ == name@,
                None => forall|i: int| 0 <= i < self.entries@.len() ==> #[trigger] self.entries@[i].0@ != name@,
            },
    {
        let mut i: usize = 0;
        while i < self.entries.len()
            invariant
                i <= self.entries@.len(),
                forall|j: int| 0 <= j < i ==> #[trigger] self.entries@[j].0@ != name@,
            decreases self.entries.len() - i,
        {
            if str_eq(self.entries[i].0.as_str(), name) {
                return Some(i);
            }
            i = i + 1;
        }
        None
    }

    /// The value of the variable, if the scope has it.
    pub fn get(&self, name: &str) -> (r: Option<&Value>)
        requires
            self.wf(),
        ensures
            match r {
                Some(v) => self.view_map().contains_key(name@) && v@ == self.view_map()[name@],
                None => !self.view_map().contains_key(name@),
            },
    {
        proof { lemma_entries_map(self.entries@); }
        match self.find(name) {
            Some(i) => Some(&self.entries[i].1),
            None => None,
        }
    }

    /// Sets the variable, adding it or replacing its value.
    pub fn insert(&mut self, name: String, value: Value)
        requires
            old(self).wf(),
        ensures
            final(self).wf(),
            final(self).view_map() == old(self).view_map().insert(name@, value@),
    {
        proof { lemma_entries_map(self.entries@); }
        let ghost k = name@;
        let ghost val = value@;
        match self.find(name.as_str()) {
            Some(i) => {
                let ghost old_v = self.entries@;
                self.entries.set(i, (name, value));
                proof {
                    let v = self.entries@;
                    assert(distinct_keys(v)) by {
                        assert forall|a: int, b: int| 0 <= a < b < v.len() implies (#[trigger] v[a]).0@ != (#[trigger] v[b]).0@ by {
                            assert(old_v[a].0@ == v[a].0@ && old_v[b].0@ == v[b].0@);
                        }
                    }
                    lemma_entries_map(v);
                    assert(entries_map(v) =~= entries_map(old_v).insert(k, val)) by {
                        assert forall|x: Seq<char>| #[trigger] entries_map(v).contains_key(x) <==> entries_map(old_v).insert(k, val).contains_key(x) by {
                            if exists|j: int| 0 <= j < v.len() && v[j].0@ == x {
                                let j = choose|j: int| 0 <= j < v.len() && v[j].0@ == x;
                                assert(old_v[j].0@ == x);
                            }
                            if exists|j: int| 0 <= j < old_v.len() && old_v[j].0@ == x {
                                let j = choose|j: int| 0 <= j < old_v.len() && old_v[j].0@ == x;
                                assert(v[j].0@ == x);
                            }
                        }
                        assert forall|x: Seq<char>| #[trigger] entries_map(v).contains_key(x) implies entries_map(v)[x] == entries_map(old_v).insert(k, val)[x] by {
                            let j = choose|j: int| 0 <= j < v.len() && v[j].0@ == x;
                            assert(entries_map(v)[v[j].0@] == v[j].1@);
                            if j != i {
                                assert(entries_map(old_v)[old_v[j].0@] == old_v[j].1@);
                            }
                        }
                    }
                }
            },
            None => {
                let ghost old_v = self.entries@;
                self.entries.push((name, value));
                proof {
                    let v = self.entries@;
                    assert(v.drop_last() == old_v);
                    assert(distinct_keys(v)) by {
                        assert forall|a: int, b: int| 0 <= a < b < v.len() implies (#[trigger] v[a]).0@ != (#[trigger] v[b]).0@ by {
                            if b == v.len() - 1 {
                                assert(old_v[a].0@ != k);
                            } else {
                                assert(old_v[a] == v[a] && old_v[b] == v[b]);
                            }
                        }
                    }
                }
            },
        }
    }

    /// The number of variables.
    pub fn len(&self) -> (r: usize)
        requires
            self.wf(),
        ensures
            r == self.view_map().dom().len(),
    {
        proof { lemma_entries_len(self.entries@); }
        self.entries.len()
    }

    /// The variables with their values, each name once.
    pub fn entries(&self) -> (r: &Vec<(String, Value)>)
        requires
            self.wf(),
        ensures
            distinct_keys(r@),
            entries_map(r@) == self.view_map(),
    {
        &self.entries
    }
}

/// The map of distinct entries has as many names as entries.
pub proof fn lemma_entries_len(v: Seq<(String, Value)>)
    requires
        distinct_keys(v),
    ensures
        entries_map(v).dom().finite(),
        entries_map(v).dom().len() == v.len(),
    decreases v.len(),
{
    if v.len() > 0 {
        let w = v.drop_last();
        assert(distinct_keys(w));
        lemma_entries_len(w);
        lemma_entries_map(w);
        assert(!entries_map(w).contains_key(v.last().0@)) by {
            if entries_map(w).contains_key(v.last().0@) {
                let i = choose|i: int| 0 <= i < w.len() && w[i].0@ == v.last().0@;
                assert(v[i].0@ == v[v.len() - 1].0@);
            }
        }
    }
}

/// The value of a name in the innermost loop scope that has it.
pub open spec fn find_in_loops(loops: Seq<Map<Seq<char>, ValueView>>, name: Seq<char>) -> Option<ValueView>
    decreases loops.len(),
{
    if loops.len() == 0 {
        None
    } else if loops.last().contains_key(name) {
        Some(loops.last()[name])
    } else {
        find_in_loops(loops.drop_last(), name)
    }
}

/// The value a name resolves to: loop scopes first, innermost first; then the
/// innermost function scope (outer function scopes are not visible); then the
/// global scope.
pub open spec fn resolve(
    loops: Seq<Map<Seq<char>, ValueView>>,
    calls: Seq<Map<Seq<char>, ValueView>>,
    globals: Map<Seq<char>, ValueView>,
    name: Seq<char>,
) -> Option<ValueView> {
    match find_in_loops(loops, name) {
        Some(v) => Some(v),
        None => if calls.len() > 0 && calls.last().contains_key(name) {
            Some(calls.last()[name])
        } else if globals.contains_key(name) {
            Some(globals[name])
        } else {
            None
        },
    }
}

/// A scope after binding the first `n` parameters to the arguments in order.
pub open spec fn bind_params(
    m: Map<Seq<char>, ValueView>,
    params: Seq<Seq<char>>,
    args: Seq<ValueView>,
    n: nat,
) -> Map<Seq<char>, ValueView>
    decreases n,
{
    if n == 0 {
        m
    } else {
        bind_params(m, params, args, (n - 1) as nat).insert(params[n - 1], args[n - 1])
    }
}

/// The scopes after `set_variable(name, value, is_global)`: the global scope
/// when `is_global` or outside any function, else the innermost function
/// scope, gets the value.
pub open spec fn after_set(
    calls: Seq<Map<Seq<char>, ValueView>>,
    globals: Map<Seq<char>, ValueView>,
    name: Seq<char>,
    value: ValueView,
    is_global: bool,
) -> (Seq<Map<Seq<char>, ValueView>>, Map<Seq<char>, ValueView>) {
    if is_global || calls.len() == 0 {
        (calls, globals.insert(name, value))
    } else {
        (calls.update(calls.len() - 1, calls.last().insert(name, value)), globals)
    }
}

/// Reading a variable just set gives the value set, unless a loop scope
/// binds the name, or the value went to the global scope while the
/// innermost function scope binds the name.
pub proof fn law_read_after_set(
    loops: Seq<Map<Seq<char>, ValueView>>,
    calls: Seq<Map<Seq<char>, ValueView>>,
    globals: Map<Seq<char>, ValueView>,
    name: Seq<char>,
    value: ValueView,
    is_global: bool,
)
    requires
        find_in_loops(loops, name) is None,
        is_global && calls.len() > 0 ==> !calls.last().contains_key(name),
    ensures
        resolve(loops, after_set(calls, globals, name, value, is_global).0,
            after_set(calls, globals, name, value, is_global).1, name) == Some(value),
{
}

/// A loop variable just set is what the name reads, whatever the other
/// scopes hold.
pub proof fn law_read_after_loop_set(
    loops: Seq<Map<Seq<char>, ValueView>>,
    calls: Seq<Map<Seq<char>, ValueView>>,
    globals: Map<Seq<char>, ValueView>,
    name: Seq<char>,
    value: ValueView,
)
    requires
        loops.len() > 0,
    ensures
        resolve(loops.update(loops.len() - 1, loops.last().insert(name, value)), calls, globals, name) == Some(value),
{
    let l2 = loops.update(loops.len() - 1, loops.last().insert(name, value));
    assert(l2.last() == loops.last().insert(name, value));
}

/// Closing a scope just opened gives back the stack as it was.
pub proof fn law_exit_undoes_enter(stack: Seq<Map<Seq<char>, ValueView>>)
    ensures
        stack.push(Map::empty()).drop_last() == stack,
        stack.push(Map::empty()).len() > 0,
{
    assert(stack.push(Map::empty()).drop_last() =~= stack);
}

/// Opening a function scope hides the variables of the caller's function
/// scope: a name that no loop scope binds then reads as the global value.
pub proof fn law_new_function_scope_hides_caller(
    loops: Seq<Map<Seq<char>, ValueView>>,
    calls: Seq<Map<Seq<char>, ValueView>>,
    globals: Map<Seq<char>, ValueView>,
    name: Seq<char>,
)
    requires
        find_in_loops(loops, name) is None,
    ensures
        resolve(loops, calls.push(Map::empty()), globals, name)
            == if globals.contains_key(name) { Some(globals[name]) } else { None },
{
}

/// The maps of a stack of scopes.
pub open spec fn scope_maps(v: Seq<Scope>) -> Seq<Map<Seq<char>, ValueView>> {
    v.map_values(|s: Scope| s.view_map())
}

/// Every scope of a stack is well formed.
pub open spec fn all_wf(v: Seq<Scope>) -> bool {
    forall|i: int| 0 <= i < v.len() ==> (#[trigger] v[i]).wf()
}

/// The message for a call with `got` arguments where `expected` were
/// expected.
pub open spec fn count_message(expected: nat, got: nat) -> Seq<char> {
    "Неверное количество аргументов: ожидалось "@ + decimal(expected) + ", получено "@ + decimal(got)
}

/// The message for a call with the wrong number of arguments (see
/// `count_message`).
fn argument_count_message(expected: usize, got: usize) -> (r: String)
    ensures
        r@ == count_message(expected as nat, got as nat),
{
    let mut m = owned("Неверное количество аргументов: ожидалось ");
    let e = decimal_string(expected as u64);
    push_string(&mut m, e.as_str());
    push_string(&mut m, ", получено ");
    let g = decimal_string(got as u64);
    push_string(&mut m, g.as_str());
    m
}

/// The variables of a program as the specifications see them: the global
/// scope, the function scopes and the loop scopes, innermost last.
pub struct Vars {
    pub globals: Map<Seq<char>, ValueView>,
    pub calls: Seq<Map<Seq<char>, ValueView>>,
    pub loops: Seq<Map<Seq<char>, ValueView>>,
}

/// The value a name resolves to in `s` (see `resolve`).
pub open spec fn var_lookup(s: Vars, name: Seq<char>) -> Option<ValueView> {
    resolve(s.loops, s.calls, s.globals, name)
}

/// `s` with a variable set: in the global scope when `is_global` or outside
/// any function, else in the innermost function scope.
pub open spec fn set_var(s: Vars, name: Seq<char>, v: ValueView, is_global: bool) -> Vars {
    if is_global || s.calls.len() == 0 {
        Vars { globals: s.globals.insert(name, v), ..s }
    } else {
        Vars { calls: s.calls.update(s.calls.len() - 1, s.calls.last().insert(name, v)), ..s }
    }
}

/// `s` with a new, empty loop scope.
pub open spec fn enter_loop(s: Vars) -> Vars {
    Vars { loops: s.loops.push(Map::empty()), ..s }
}

/// `s` with a variable set in the innermost loop scope, if there is one.
pub open spec fn set_loop_var(s: Vars, name: Seq<char>, v: ValueView) -> Vars {
    if s.loops.len() == 0 {
        s
    } else {
        Vars { loops: s.loops.update(s.loops.len() - 1, s.loops.last().insert(name, v)), ..s }
    }
}

/// `s` without its innermost loop scope, if there is one.
pub open spec fn exit_loop(s: Vars) -> Vars {
    if s.loops.len() == 0 { s } else { Vars { loops: s.loops.drop_last(), ..s } }
}

/// `s` with a new function scope binding the parameters to the arguments.
pub open spec fn enter_call(s: Vars, params: Seq<Seq<char>>, args: Seq<ValueView>) -> Vars {
    Vars { calls: s.calls.push(bind_params(Map::empty(), params, args, params.len())), ..s }
}

/// `s` without its innermost function scope, if there is one.
pub open spec fn exit_call(s: Vars) -> Vars {
    if s.calls.len() == 0 { s } else { Vars { calls: s.calls.drop_last(), ..s } }
}

/// The variables of a running program: global, per function call, per loop.
pub struct VariableManager {
    global_variables: Scope,
    call_stack: Vec<Scope>,
    loop_stack: Vec<Scope>,
}

impl VariableManager {
    /// The global variables.
    pub closed spec fn globals(&self) -> Map<Seq<char>, ValueView> {
        self.global_variables.view_map()
    }

    /// The function scopes, outermost first.
    pub closed spec fn calls(&self) -> Seq<Map<Seq<char>, ValueView>> {
        scope_maps(self.call_stack@)
    }

    /// The loop scopes, outermost first.
    pub closed spec fn loops(&self) -> Seq<Map<Seq<char>, ValueView>> {
        scope_maps(self.loop_stack@)
    }

    /// Every scope is well formed.
    pub closed spec fn wf(&self) -> bool {
        &&& self.global_variables.wf()
        &&& all_wf(self.call_stack@)
        &&& all_wf(self.loop_stack@)
    }

    /// The scopes as the specifications see them.
    pub open spec fn vars(&self) -> Vars {
        Vars { globals: self.globals(), calls: self.calls(), loops: self.loops() }
    }

    /// The value a name resolves to (see `resolve`).
    pub open spec fn lookup(&self, name: Seq<char>) -> Option<ValueView> {
        resolve(self.loops(), self.calls(), self.globals(), name)
    }

    /// No variables and no scopes.
    pub fn new() -> (r: Self)
        ensures
            r.wf(),
            r.globals() == Map::<Seq<char>, ValueView>::empty(),
            r.calls() == Seq::<Map<Seq<char>, ValueView>>::empty(),
            r.loops() == Seq::<Map<Seq<char>, ValueView>>::empty(),
    {
        let r = VariableManager { global_variables: Scope::new(), call_stack: Vec::new(), loop_stack: Vec::new() };
        assert(scope_maps(r.call_stack@) =~= Seq::<Map<Seq<char>, ValueView>>::empty());
        assert(scope_maps(r.loop_stack@) =~= Seq::<Map<Seq<char>, ValueView>>::empty());
        r
    }

    /// The value of a variable, looked up through the scopes (see `resolve`).
    pub fn get_variable(&self, name: &str) -> (r: Option<&Value>)
        requires
            self.wf(),
        ensures
            match r {
                Some(v) => self.lookup(name@) == Some(v@),
                None => self.lookup(name@) is None,
            },
    {
        let ghost loops = self.loops();
        let mut i: usize = self.loop_stack.len();
        proof {
            assert(loops.take(loops.len() as int) =~= loops);
        }
        while i > 0
            invariant
                i <= self.loop_stack@.len(),
                self.wf(),
                loops == self.loops(),
                find_in_loops(loops.take(i as int), name@) == find_in_loops(loops, name@),
            decreases i,
        {
            let found = self.loop_stack[i - 1].get(name);
            proof {
                assert(loops.take(i as int).drop_last() == loops.take(i - 1));
                assert(loops.take(i as int).last() == self.loop_stack@[i - 1].view_map());
            }
            match found {
                Some(v) => return Some(v),
                None => {},
            }
            i = i - 1;
        }
        proof {
            assert(loops.take(0) == Seq::<Map<Seq<char>, ValueView>>::empty());
        }
        let n = self.call_stack.len();
        if n > 0 {
            match self.call_stack[n - 1].get(name) {
                Some(v) => return Some(v),
                None => {},
            }
        }
        self.global_variables.get(name)
    }

    /// Sets a variable: in the global scope when `is_global` or outside any
    /// function, else in the innermost function scope.
    pub fn set_variable(&mut self, name: String, value: Value, is_global: bool)
        requires
            old(self).wf(),
        ensures
            final(self).wf(),
            final(self).loops() == old(self).loops(),
            if is_global || old(self).calls().len() == 0 {
                &&& final(self).globals() == old(self).globals().insert(name@, value@)
                &&& final(self).calls() == old(self).calls()
            } else {
                &&& final(self).globals() == old(self).globals()
                &&& final(self).calls() == old(self).calls().update(
                    old(self).calls().len() - 1,
                    old(self).calls().last().insert(name@, value@),
                )
            },
    {
        if is_global || self.call_stack.len() == 0 {
            self.global_variables.insert(name, value);
        } else {
            let ghost old_stack = self.call_stack@;
            let mut top = self.call_stack.pop().unwrap();
            top.insert(name, value);
            self.call_stack.push(top);
            proof {
                assert(self.call_stack@ == old_stack.update(old_stack.len() - 1, top));
                assert(scope_maps(self.call_stack@) =~= scope_maps(old_stack).update(
                    old_stack.len() - 1,
                    scope_maps(old_stack).last().insert(name@, value@),
                ));
            }
        }
    }

    /// Sets a variable in the innermost loop scope; outside any loop nothing changes.
    pub fn set_loop_variable(&mut self, name: String, value: Value)
        requires
            old(self).wf(),
        ensures
            final(self).wf(),
            final(self).globals() == old(self).globals(),
            final(self).calls() == old(self).calls(),
            final(self).loops() == if old(self).loops().len() == 0 {
                old(self).loops()
            } else {
                old(self).loops().update(old(self).loops().len() - 1, old(self).loops().last().insert(name@, value@))
            },
    {
        if self.loop_stack.len() > 0 {
            let ghost old_stack = self.loop_stack@;
            let mut top = self.loop_stack.pop().unwrap();
            top.insert(name, value);
            self.loop_stack.push(top);
            proof {
                assert(self.loop_stack@ == old_stack.update(old_stack.len() - 1, top));
                assert(scope_maps(self.loop_stack@) =~= scope_maps(old_stack).update(
                    old_stack.len() - 1,
                    scope_maps(old_stack).last().insert(name@, value@),
                ));
            }
        }
    }

    /// The global scope.
    pub fn get_all_global_variables(&self) -> (r: &Scope)
        requires
            self.wf(),
        ensures
            r.wf(),
            r.view_map() == self.globals(),
    {
        &self.global_variables
    }

    /// Opens a new, empty function scope.
    pub fn enter_function_scope(&mut self)
        requires
            old(self).wf(),
        ensures
            final(self).wf(),
            final(self).globals() == old(self).globals(),
            final(self).calls() == old(self).calls().push(Map::empty()),
            final(self).loops() == old(self).loops(),
    {
        let ghost old_stack = self.call_stack@;
        self.call_stack.push(Scope::new());
        proof {
            assert(scope_maps(self.call_stack@) =~= scope_maps(old_stack).push(Map::empty()));
        }
    }

    /// Closes the innermost function scope, if there is one.
    pub fn exit_function_scope(&mut self)
        requires
            old(self).wf(),
        ensures
            final(self).wf(),
            final(self).globals() == old(self).globals(),
            final(self).calls() == if old(self).calls().len() == 0 {
                old(self).calls()
            } else {
                old(self).calls().drop_last()
            },
            final(self).loops() == old(self).loops(),
    {
        let ghost old_stack = self.call_stack@;
        let _ = self.call_stack.pop();
        proof {
            if old_stack.len() > 0 {
                assert(scope_maps(self.call_stack@) =~= scope_maps(old_stack).drop_last());
            }
        }
    }

    /// Opens a new, empty loop scope.
    pub fn enter_loop_scope(&mut self)
        requires
            old(self).wf(),
        ensures
            final(self).wf(),
            final(self).globals() == old(self).globals(),
            final(self).calls() == old(self).calls(),
            final(self).loops() == old(self).loops().push(Map::empty()),
    {
        let ghost old_stack = self.loop_stack@;
        self.loop_stack.push(Scope::new());
        proof {
            assert(scope_maps(self.loop_stack@) =~= scope_maps(old_stack).push(Map::empty()));
        }
    }

    /// Closes the innermost loop scope, if there is one.
    pub fn exit_loop_scope(&mut self)
        requires
            old(self).wf(),
        ensures
            final(self).wf(),
            final(self).globals() == old(self).globals(),
            final(self).calls() == old(self).calls(),
            final(self).loops() == if old(self).loops().len() == 0 {
                old(self).loops()
            } else {
                old(self).loops().drop_last()
            },
    {
        let ghost old_stack = self.loop_stack@;
        let _ = self.loop_stack.pop();
        proof {
            if old_stack.len() > 0 {
                assert(scope_maps(self.loop_stack@) =~= scope_maps(old_stack).drop_last());
            }
        }
    }

    /// Binds the parameters to the arguments, in order, in the innermost
    /// function scope (outside any function nothing is bound). Fails, changing
    /// nothing, when the counts differ.
    pub fn set_function_parameters(&mut self, parameters: &[String], arguments: Vec<Value>) -> (r: Result<(), String>)
        requires
            old(self).wf(),
        ensures
            final(self).wf(),
            final(self).globals() == old(self).globals(),
            final(self).loops() == old(self).loops(),
            r is Ok <==> parameters@.len() == arguments@.len(),
            r matches Err(m) ==> m@ == count_message(parameters@.len(), arguments@.len()),
            final(self).calls() == if r is Err || old(self).calls().len() == 0 {
                old(self).calls()
            } else {
                old(self).calls().update(
                    old(self).calls().len() - 1,
                    bind_params(
                        old(self).calls().last(),
                        parameters@.map_values(|p: String| p@),
                        arguments@.map_values(|a: Value| a@),
                        parameters@.len(),
                    ),
                )
            },
    {
        if parameters.len() != arguments.len() {
            return Err(argument_count_message(parameters.len(), arguments.len()));
        }
        if self.call_stack.len() > 0 {
            let ghost old_stack = self.call_stack@;
            let ghost ps = parameters@.map_values(|p: String| p@);
            let ghost vs = arguments@.map_values(|a: Value| a@);
            let mut top = self.call_stack.pop().unwrap();
            let ghost start = top.view_map();
            let mut i: usize = 0;
            let mut args = arguments;
            let mut values: Vec<Value> = Vec::new();
            while args.len() > 0
                invariant
                    values@.len() + args@.len() == parameters@.len(),
                    forall|j: int| 0 <= j < values@.len() ==> #[trigger] values@[j]@ == vs[parameters@.len() - 1 - j],
                    forall|j: int| 0 <= j < args@.len() ==> #[trigger] args@[j]@ == vs[j],
                    vs.len() == parameters@.len(),
                decreases args.len(),
            {
                let v = args.pop().unwrap();
                values.push(v);
            }
            while i < parameters.len()
                invariant
                    top.wf(),
                    i <= parameters@.len(),
                    values@.len() + i == parameters@.len(),
                    ps == parameters@.map_values(|p: String| p@),
                    vs.len() == parameters@.len(),
                    forall|j: int| 0 <= j < values@.len() ==> #[trigger] values@[j]@ == vs[parameters@.len() - 1 - j],
                    top.view_map() == bind_params(start, ps, vs, i as nat),
                decreases parameters.len() - i,
            {
                let v = values.pop().unwrap();
                top.insert(parameters[i].clone(), v);
                i = i + 1;
            }
            self.call_stack.push(top);
            proof {
                assert(self.call_stack@ == old_stack.update(old_stack.len() - 1, top));
                assert(scope_maps(self.call_stack@) =~= scope_maps(old_stack).update(
                    old_stack.len() - 1,
                    bind_params(scope_maps(old_stack).last(), ps, vs, parameters@.len()),
                ));
            }
        }
        Ok(())
    }

    /// Removes every variable and every scope.
    pub fn clear(&mut self)
        requires
            old(self).wf(),
        ensures
            final(self).wf(),
            final(self).globals() == Map::<Seq<char>, ValueView>::empty(),
            final(self).calls() == Seq::<Map<Seq<char>, ValueView>>::empty(),
            final(self).loops() == Seq::<Map<Seq<char>, ValueView>>::empty(),
    {
        self.global_variables = Scope::new();
        self.call_stack = Vec::new();
        self.loop_stack = Vec::new();
        assert(scope_maps(self.call_stack@) =~= Seq::<Map<Seq<char>, ValueView>>::empty());
        assert(scope_maps(self.loop_stack@) =~= Seq::<Map<Seq<char>, ValueView>>::empty());
    }

    /// The number of open function scopes.
    pub fn function_depth(&self) -> (r: usize)
        ensures
            r == self.calls().len(),
    {
        self.call_stack.len()
    }

    /// The number of open loop scopes.
    pub fn loop_depth(&self) -> (r: usize)
        ensures
            r == self.loops().len(),
    {
        self.loop_stack.len()
    }

    /// Whether a function scope is open.
    pub fn is_in_function(&self) -> (r: bool)
        ensures
            r == (self.calls().len() > 0),
    {
        self.call_stack.len() > 0
    }

    /// Whether a loop scope is open.
    pub fn is_in_loop(&self) -> (r: bool)
        ensures
            r == (self.loops().len() > 0),
    {
        self.loop_stack.len() > 0
    }
}

impl Default for VariableManager {
    fn default() -> (r: Self)
        ensures
            r.wf(),
            r.globals() == Map::<Seq<char>, ValueView>::empty(),
            r.calls() == Seq::<Map<Seq<char>, ValueView>>::empty(),
            r.loops() == Seq::<Map<Seq<char>, ValueView>>::empty(),
    {
        Self::new()
    }
}

} // verus!
