use vstd::prelude::*;
use crate::error::{Fault, SchemeError};
use crate::value::{opt_view, Datum, Value};

verus! {

/// Name-value pairs as the model sees them.
pub type Entries = Seq<(Seq<char>, Datum)>;

pub open spec fn entries_view(v: Seq<(String, Value)>) -> Entries {
    Seq::new(v.len(), |i: int| (v[i].0@, v[i].1@))
}

/// Position of the last entry named `k`, or -1 when there is none.
pub open spec fn key_index(b: Entries, k: Seq<char>) -> int
    decreases b.len(),
{
    if b.len() == 0 {
        -1
    } else if b.last().0 == k {
        b.len() - 1
    } else {
        key_index(b.drop_last(), k)
    }
}

pub proof fn lemma_key_index_range(b: Entries, k: Seq<char>)
    ensures
        -1 <= key_index(b, k) < b.len(),
        key_index(b, k) >= 0 ==> b[key_index(b, k)].0 == k,
    decreases b.len(),
{
    if b.len() > 0 {
        lemma_key_index_range(b.drop_last(), k);
    }
}

/// The value that `b` gives to `k`.
pub open spec fn entry_get(b: Entries, k: Seq<char>) -> Option<Datum> {
    let i = key_index(b, k);
    if i >= 0 {
        Some(b[i].1)
    } else {
        None
    }
}

/// `b` with `k` bound to `d`: an entry named `k` is overwritten, else one is added.
pub open spec fn entry_put(b: Entries, k: Seq<char>, d: Datum) -> Entries {
    let i = key_index(b, k);
    if i >= 0 {
        b.update(i, (k, d))
    } else {
        b.push((k, d))
    }
}

/// No two entries of `b` have the same name.
pub open spec fn keys_unique(b: Entries) -> bool {
    forall|i: int, j: int| 0 <= i < j < b.len() ==> #[trigger] b[i].0 != #[trigger] b[j].0
}

/// When `key_index` finds nothing, no entry has that name.
pub proof fn lemma_key_index_none(b: Entries, k: Seq<char>)
    requires
        key_index(b, k) == -1,
    ensures
        forall|i: int| 0 <= i < b.len() ==> #[trigger] b[i].0 != k,
    decreases b.len(),
{
    if b.len() > 0 {
        lemma_key_index_none(b.drop_last(), k);
        assert forall|i: int| 0 <= i < b.len() implies #[trigger] b[i].0 != k by {
            if i < b.len() - 1 {
                assert(b[i] == b.drop_last()[i]);
            }
        }
    }
}

/// Binding a name keeps names unique.
pub proof fn lemma_put_unique(b: Entries, k: Seq<char>, d: Datum)
    requires
        keys_unique(b),
    ensures
        keys_unique(entry_put(b, k, d)),
{
    lemma_key_index_range(b, k);
    let i = key_index(b, k);
    if i < 0 {
        lemma_key_index_none(b, k);
        let b2 = b.push((k, d));
        assert forall|x: int, y: int| 0 <= x < y < b2.len() implies #[trigger] b2[x].0 != #[trigger] b2[y].0 by {
            if y == b.len() {
                assert(b2[x] == b[x]);
            } else {
                assert(b2[x] == b[x] && b2[y] == b[y]);
            }
        }
    } else {
        let b2 = b.update(i, (k, d));
        assert forall|x: int, y: int| 0 <= x < y < b2.len() implies #[trigger] b2[x].0 != #[trigger] b2[y].0 by {
            assert(b2[x].0 == b[x].0);
            assert(b2[y].0 == b[y].0);
        }
    }
}

/// Finds the last entry of `b` named `k`.
pub fn find_entry(b: &Vec<(String, Value)>, k: &String) -> (r: Option<usize>)
    ensures
        match r {
            Some(i) => key_index(entries_view(b@), k@) == i as int,
            None => key_index(entries_view(b@), k@) == -1,
        },
{
    let ghost e = entries_view(b@);
    let mut i: usize = b.len();
    assert(e.subrange(0, i as int) =~= e);
    while i > 0
        invariant
            i <= b.len(),
            e == entries_view(b@),
            key_index(e, k@) == key_index(e.subrange(0, i as int), k@),
        decreases i,
    {
        assert(e.subrange(0, i as int).drop_last() =~= e.subrange(0, i - 1));
        if b[i - 1].0 == *k {
            return Some(i - 1);
        }
        i = i - 1;
    }
    assert(e.subrange(0, 0).len() == 0);
    None
}

/// Binds `k` to `v` in `b`, overwriting an entry of that name.
pub fn put_entry(b: &mut Vec<(String, Value)>, k: String, v: Value)
    ensures
        entries_view(final(b)@) == entry_put(entries_view(old(b)@), k@, v@),
        keys_unique(entries_view(old(b)@)) ==> keys_unique(entries_view(final(b)@)),
{
    proof {
        if keys_unique(entries_view(b@)) {
            lemma_put_unique(entries_view(b@), k@, v@);
        }
    }
    let ghost kv = k@;
    let ghost dv = v@;
    match find_entry(b, &k) {
        Some(i) => {
            proof {
                lemma_key_index_range(entries_view(b@), kv);
            }
            b.set(i, (k, v));
            assert(entries_view(b@) =~= entry_put(entries_view(old(b)@), kv, dv));
        },
        None => {
            b.push((k, v));
            assert(entries_view(b@) =~= entry_put(entries_view(old(b)@), kv, dv));
        },
    }
}

/// One lexical scope: its own bindings and the handle of its parent scope.
#[derive(Debug)]
pub struct Environment {
    pub bindings: Vec<(String, Value)>,
    pub parent: Option<usize>,
    /// Whether a closure has been made over this scope, so that it may be
    /// reached after the call that made it returns.
    pub captured: bool,
}

/// The model of a scope.
pub struct Frame {
    pub bindings: Entries,
    pub parent: Option<nat>,
    pub captured: bool,
}

impl View for Environment {
    type V = Frame;

    open spec fn view(&self) -> Frame {
        Frame {
            bindings: entries_view(self.bindings@),
            parent: match self.parent {
                Some(p) => Some(p as nat),
                None => None,
            },
            captured: self.captured,
        }
    }
}

/// Every scope, array and map of a running program, each named by its
/// position; and the text that the program has displayed.
#[derive(Debug)]
pub struct Store {
    pub scopes: Vec<Environment>,
    pub arrays: Vec<Vec<Value>>,
    pub tables: Vec<Vec<(String, Value)>>,
    pub output: String,
}

/// The model of a store.
pub struct StoreModel {
    pub scopes: Seq<Frame>,
    pub arrays: Seq<Seq<Datum>>,
    pub tables: Seq<Entries>,
    pub output: Seq<char>,
}

impl View for Store {
    type V = StoreModel;

    open spec fn view(&self) -> StoreModel {
        StoreModel {
            scopes: Seq::new(self.scopes.len() as nat, |i: int| self.scopes@[i]@),
            arrays: Seq::new(self.arrays.len() as nat, |i: int| crate::value::views(self.arrays@[i]@)),
            tables: Seq::new(self.tables.len() as nat, |i: int| entries_view(self.tables@[i]@)),
            output: self.output@,
        }
    }
}

/// A store is well formed when every scope's parent was made before it.
pub open spec fn store_wf(st: StoreModel) -> bool {
    forall|i: int|
        0 <= i < st.scopes.len() ==> match #[trigger] st.scopes[i].parent {
            Some(p) => p < i,
            None => true,
        }
}

/// Every scope and every map of the store binds each name at most once.
pub open spec fn store_keys_unique(st: StoreModel) -> bool {
    &&& forall|i: int| 0 <= i < st.scopes.len() ==> keys_unique(#[trigger] st.scopes[i].bindings)
    &&& forall|i: int| 0 <= i < st.tables.len() ==> keys_unique(#[trigger] st.tables[i])
}

/// What `k` names in scope `env` and its ancestors. A parent handle that is
/// not below its child's ends the chain.
pub open spec fn lookup_from(st: StoreModel, env: nat, k: Seq<char>) -> Option<Datum>
    decreases env,
{
    if env >= st.scopes.len() {
        None
    } else {
        let f = st.scopes[env as int];
        match entry_get(f.bindings, k) {
            Some(d) => Some(d),
            None => match f.parent {
                Some(p) => if p < env {
                    lookup_from(st, p, k)
                } else {
                    None
                },
                None => None,
            },
        }
    }
}

/// The nearest scope from `env` up its chain that binds `k`.
pub open spec fn defining_scope(st: StoreModel, env: nat, k: Seq<char>) -> Option<nat>
    decreases env,
{
    if env >= st.scopes.len() {
        None
    } else {
        let f = st.scopes[env as int];
        if key_index(f.bindings, k) >= 0 {
            Some(env)
        } else {
            match f.parent {
                Some(p) => if p < env {
                    defining_scope(st, p, k)
                } else {
                    None
                },
                None => None,
            }
        }
    }
}

/// The store after `k` is bound to `d` in scope `env` itself.
pub open spec fn define_in(st: StoreModel, env: nat, k: Seq<char>, d: Datum) -> StoreModel {
    if env < st.scopes.len() {
        let f = st.scopes[env as int];
        StoreModel {
            scopes: st.scopes.update(
                env as int,
                Frame { bindings: entry_put(f.bindings, k, d), ..f },
            ),
            ..st
        }
    } else {
        st
    }
}

/// The store after scope `env` is marked as captured by a closure.
pub open spec fn capture_in(st: StoreModel, env: nat) -> StoreModel {
    if env < st.scopes.len() {
        StoreModel { scopes: st.scopes.update(env as int, Frame { captured: true, ..st.scopes[env as int] }), ..st }
    } else {
        st
    }
}

/// The store after a call is done with scope `env`: when the call made that
/// scope (`owned`), it is the newest scope and no closure was made over it,
/// nothing can reach it any more and it is dropped.
pub open spec fn release_in(st: StoreModel, env: nat, owned: bool) -> StoreModel {
    if owned && env + 1 == st.scopes.len() && !st.scopes[env as int].captured {
        StoreModel { scopes: st.scopes.drop_last(), ..st }
    } else {
        st
    }
}

/// The store after an assignment to `k` from scope `env`: the nearest scope
/// that binds it changes; `None` when no scope of the chain does.
pub open spec fn assign_in(st: StoreModel, env: nat, k: Seq<char>, d: Datum) -> Option<StoreModel> {
    match defining_scope(st, env, k) {
        Some(j) => Some(define_in(st, j, k, d)),
        None => None,
    }
}

impl Environment {
    /// A scope with no bindings and no parent.
    pub fn new() -> (r: Environment)
        ensures
            r@ == (Frame { bindings: Seq::empty(), parent: None, captured: false }),
    {
        let r = Environment { bindings: Vec::new(), parent: None, captured: false };
        assert(r@.bindings =~= Seq::empty());
        r
    }

    /// An empty scope whose parent is the scope `parent` of the store.
    pub fn new_child(parent: usize) -> (r: Environment)
        ensures
            r@ == (Frame { bindings: Seq::empty(), parent: Some(parent as nat), captured: false }),
    {
        let r = Environment { bindings: Vec::new(), parent: Some(parent), captured: false };
        assert(r@.bindings =~= Seq::empty());
        r
    }

    /// Binds `name` in this scope alone, overwriting a binding of that name.
    pub fn define(&mut self, name: String, value: Value)
        ensures
            final(self)@ == (Frame { bindings: entry_put(old(self)@.bindings, name@, value@), ..old(self)@ }),
    {
        put_entry(&mut self.bindings, name, value);
    }

    /// What `name` is bound to in this scope alone.
    pub fn lookup_local(&self, name: &String) -> (r: Option<Value>)
        ensures
            match r {
                Some(v) => entry_get(self@.bindings, name@) == Some(v@),
                None => entry_get(self@.bindings, name@) is None,
            },
    {
        match find_entry(&self.bindings, name) {
            Some(i) => {
                proof {
                    lemma_key_index_range(self@.bindings, name@);
                }
                Some(self.bindings[i].1.copy())
            },
            None => None,
        }
    }

    /// What `name` is bound to in this scope or, failing that, in its parent's
    /// chain within `store`.
    pub fn lookup(&self, store: &Store, name: &String) -> (r: Option<Value>)
        ensures
            opt_view(r) == match entry_get(self@.bindings, name@) {
                Some(d) => Some(d),
                None => match self@.parent {
                    Some(p) => lookup_from(store@, p, name@),
                    None => None,
                },
            },
    {
        match self.lookup_local(name) {
            Some(v) => Some(v),
            None => match self.parent {
                Some(p) => store.lookup(p, name),
                None => None,
            },
        }
    }

    /// Assigns `value` to `name` in the nearest scope from `scope` up its chain
    /// that binds it; fails when none does.
    pub fn set(store: &mut Store, scope: usize, name: &String, value: Value) -> (r: Result<(), SchemeError>)
        ensures
            match assign_in(old(store)@, scope as nat, name@, value@) {
                Some(st) => r is Ok && final(store)@ == st,
                None => r matches Err(e) && e@ == Fault::UndefinedVariable(name@) && final(store)@ == old(store)@,
            },
    {
        match store.defining_scope(scope, name) {
            Some(j) => {
                store.define(j, name.clone(), value);
                Ok(())
            },
            None => Err(SchemeError::UndefinedVariable(name.clone())),
        }
    }
}

impl Store {
    /// A store whose only scope is an empty global scope, at handle 0.
    pub fn new() -> (r: Store)
        ensures
            r@.scopes == seq![Frame { bindings: Seq::<(Seq<char>, Datum)>::empty(), parent: None, captured: false }],
            r@.arrays.len() == 0,
            r@.tables.len() == 0,
            r@.output.len() == 0,
            store_wf(r@),
            store_keys_unique(r@),
    {
        let mut scopes: Vec<Environment> = Vec::new();
        scopes.push(Environment::new());
        let r = Store { scopes, arrays: Vec::new(), tables: Vec::new(), output: String::new() };
        assert(r@.scopes =~= seq![Frame { bindings: Seq::<(Seq<char>, Datum)>::empty(), parent: None, captured: false }]);
        r
    }

    /// What `name` is bound to from scope `env` up its chain.
    pub fn lookup(&self, env: usize, name: &String) -> (r: Option<Value>)
        ensures
            opt_view(r) == lookup_from(self@, env as nat, name@),
    {
        let mut cur: usize = env;
        loop
            invariant
                lookup_from(self@, env as nat, name@) == lookup_from(self@, cur as nat, name@),
            decreases cur,
        {
            if cur >= self.scopes.len() {
                return None;
            }
            let sc = &self.scopes[cur];
            assert(self@.scopes[cur as int] == sc@);
            match sc.lookup_local(name) {
                Some(v) => {
                    return Some(v);
                },
                None => match sc.parent {
                    Some(p) => {
                        if p < cur {
                            cur = p;
                        } else {
                            return None;
                        }
                    },
                    None => {
                        return None;
                    },
                },
            }
        }
    }

    /// The nearest scope from `env` up its chain that binds `name`.
    pub fn defining_scope(&self, env: usize, name: &String) -> (r: Option<usize>)
        ensures
            match r {
                Some(j) => defining_scope(self@, env as nat, name@) == Some(j as nat),
                None => defining_scope(self@, env as nat, name@) is None,
            },
    {
        let mut cur: usize = env;
        loop
            invariant
                defining_scope(self@, env as nat, name@) == defining_scope(self@, cur as nat, name@),
            decreases cur,
        {
            if cur >= self.scopes.len() {
                return None;
            }
            let sc = &self.scopes[cur];
            assert(self@.scopes[cur as int] == sc@);
            match find_entry(&sc.bindings, name) {
                Some(_) => {
                    return Some(cur);
                },
                None => match sc.parent {
                    Some(p) => {
                        if p < cur {
                            cur = p;
                        } else {
                            return None;
                        }
                    },
                    None => {
                        return None;
                    },
                },
            }
        }
    }

    /// Binds `name` in scope `env` itself; a handle with no scope changes nothing.
    pub fn define(&mut self, env: usize, name: String, value: Value)
        ensures
            final(self)@ == define_in(old(self)@, env as nat, name@, value@),
    {
        if env < self.scopes.len() {
            let mut sc = Environment::new();
            self.scopes.set_and_swap(env, &mut sc);
            sc.define(name, value);
            self.scopes.set(env, sc);
            assert(self@.scopes =~= define_in(old(self)@, env as nat, name@, value@).scopes);
        }
    }

    /// Marks scope `env` as captured by a closure.
    pub fn capture(&mut self, env: usize)
        ensures
            final(self)@ == capture_in(old(self)@, env as nat),
    {
        if env < self.scopes.len() {
            let mut sc = Environment::new();
            self.scopes.set_and_swap(env, &mut sc);
            sc.captured = true;
            self.scopes.set(env, sc);
            assert(self@.scopes =~= capture_in(old(self)@, env as nat).scopes);
        }
    }

    /// Drops scope `env` when `release_in` says that nothing can reach it.
    pub fn release(&mut self, env: usize, owned: bool)
        ensures
            final(self)@ == release_in(old(self)@, env as nat, owned),
    {
        if owned && env < self.scopes.len() && env + 1 == self.scopes.len() && !self.scopes[env].captured {
            self.scopes.pop();
            assert(self@.scopes =~= old(self)@.scopes.drop_last());
        }
    }

    /// Adds a scope whose parent is `parent`, and returns its handle.
    pub fn new_scope(&mut self, parent: usize) -> (r: usize)
        ensures
            store_wf(old(self)@) && parent < old(self)@.scopes.len() ==> store_wf(final(self)@),
            r == old(self)@.scopes.len(),
            final(self)@ == (StoreModel {
                scopes: old(self)@.scopes.push(Frame { bindings: Seq::empty(), parent: Some(parent as nat), captured: false }),
                ..old(self)@
            }),
    {
        let r = self.scopes.len();
        self.scopes.push(Environment::new_child(parent));
        assert(self@.scopes =~= old(self)@.scopes.push(Frame { bindings: Seq::empty(), parent: Some(parent as nat), captured: false }));
        r
    }
}

} // verus!
