//! Scopes of variable bindings.
//!
//! All scopes live in one arena, the [`Environment`], and refer to their
//! enclosing scope by index; a function value refers to the scope it was
//! created in the same way. Scope 0 is the global scope.
use crate::object::{Object, ObjectV};
use crate::text::same_text;
use vstd::prelude::*;

verus! {

/// One scope: its bindings in the order they were made, and the enclosing scope.
pub struct Scope {
    store: Vec<(String, Object)>,
    outer: Option<usize>,
}

/// The model of a scope. A later binding of a name hides an earlier one.
pub struct ScopeV {
    pub store: Seq<(Seq<char>, ObjectV)>,
    pub outer: Option<usize>,
}

/// The arena of all scopes.
pub struct Environment {
    scopes: Vec<Scope>,
}

pub closed spec fn bindings_v(s: Seq<(String, Object)>) -> Seq<(Seq<char>, ObjectV)> {
    s.map_values(|b: (String, Object)| (b.0@, b.1@))
}

pub closed spec fn scopes_v(s: Seq<Scope>) -> Seq<ScopeV> {
    s.map_values(|sc: Scope| ScopeV { store: bindings_v(sc.store@), outer: sc.outer })
}

impl View for Environment {
    type V = Seq<ScopeV>;

    closed spec fn view(&self) -> Seq<ScopeV> {
        scopes_v(self.scopes@)
    }
}

/// The value of the latest binding of `name` in `store`.
pub open spec fn find_binding(store: Seq<(Seq<char>, ObjectV)>, name: Seq<char>) -> Option<ObjectV>
    decreases store.len(),
{
    if store.len() == 0 {
        None
    } else if store.last().0 == name {
        Some(store.last().1)
    } else {
        find_binding(store.drop_last(), name)
    }
}

/// The value of `name` seen from scope `scope`: its own binding, else that of
/// the enclosing scopes, innermost first. A scope only encloses scopes made
/// before it.
pub open spec fn lookup(env: Seq<ScopeV>, scope: int, name: Seq<char>) -> Option<ObjectV>
    decreases scope,
{
    if 0 <= scope < env.len() {
        match find_binding(env[scope].store, name) {
            Some(v) => Some(v),
            None => match env[scope].outer {
                Some(o) => if o < scope {
                    lookup(env, o as int, name)
                } else {
                    None
                },
                None => None,
            },
        }
    } else {
        None
    }
}

/// `env` with `name` bound to `v` in scope `scope` (no change if there is no such scope).
pub open spec fn bind(env: Seq<ScopeV>, scope: int, name: Seq<char>, v: ObjectV) -> Seq<ScopeV> {
    if 0 <= scope < env.len() {
        env.update(scope, ScopeV { store: env[scope].store.push((name, v)), outer: env[scope].outer })
    } else {
        env
    }
}

/// `env` with a new empty scope, enclosed by `outer` if that is given.
pub open spec fn add_scope(env: Seq<ScopeV>, outer: Option<usize>) -> Seq<ScopeV> {
    env.push(ScopeV { store: Seq::empty(), outer })
}

/// `env` with a new empty scope enclosed by `outer`.
pub open spec fn enclose(env: Seq<ScopeV>, outer: usize) -> Seq<ScopeV> {
    add_scope(env, Some(outer))
}

/// An environment that holds only the empty global scope.
pub open spec fn fresh_env() -> Seq<ScopeV> {
    seq![ScopeV { store: Seq::empty(), outer: None }]
}

impl Environment {
    /// An environment with an empty global scope.
    pub fn new() -> (r: Environment)
        ensures
            r@ == fresh_env(),
    {
        let store: Vec<(String, Object)> = Vec::new();
        assert(bindings_v(store@) =~= Seq::<(Seq<char>, ObjectV)>::empty());
        let mut scopes: Vec<Scope> = Vec::new();
        scopes.push(Scope { store, outer: None });
        let r = Environment { scopes };
        assert(r@[0] == fresh_env()[0]);
        assert(r@ =~= fresh_env());
        r
    }

    /// The number of scopes.
    pub fn len(&self) -> (r: usize)
        ensures
            r == self@.len(),
    {
        self.scopes.len()
    }

    /// Adds an empty scope enclosed by the existing scope `outer` and returns
    /// its index.
    pub fn new_enclosed(&mut self, outer: usize) -> (r: usize)
        requires
            outer < old(self)@.len(),
        ensures
            final(self)@ == enclose(old(self)@, outer),
            r == old(self)@.len(),
    {
        self.push_scope(Some(outer))
    }

    /// Adds an empty scope, enclosed by the existing scope `outer` if that is
    /// given, and returns its index.
    pub(crate) fn push_scope(&mut self, outer: Option<usize>) -> (r: usize)
        requires
            outer matches Some(o) ==> o < old(self)@.len(),
        ensures
            final(self)@ == add_scope(old(self)@, outer),
            r == old(self)@.len(),
    {
        let r = self.scopes.len();
        let store: Vec<(String, Object)> = Vec::new();
        assert(bindings_v(store@) =~= Seq::<(Seq<char>, ObjectV)>::empty());
        self.scopes.push(Scope { store, outer });
        assert(self@[r as int] == add_scope(old(self)@, outer)[r as int]);
        assert(self@ =~= add_scope(old(self)@, outer));
        r
    }

    /// The value of `name` seen from scope `scope` (see [`lookup`]).
    pub fn get(&self, scope: usize, name: &str) -> (r: Option<Object>)
        ensures
            match r {
                Some(v) => lookup(self@, scope as int, name@) == Some(v@),
                None => lookup(self@, scope as int, name@) is None,
            },
    {
        let mut cur = scope;
        while cur < self.scopes.len()
            invariant
                lookup(self@, cur as int, name@) == lookup(self@, scope as int, name@),
            decreases cur,
        {
            let store = &self.scopes[cur].store;
            assert(self@.len() == self.scopes@.len());
            let ghost sv = self@[cur as int].store;
            assert(sv == bindings_v(store@));
            let mut i = store.len();
            assert(sv.take(i as int) =~= sv);
            while i > 0
                invariant
                    i <= store.len(),
                    cur < self.scopes@.len(),
                    self@.len() == self.scopes@.len(),
                    sv == self@[cur as int].store,
                    sv == bindings_v(store@),
                    lookup(self@, cur as int, name@) == lookup(self@, scope as int, name@),
                    find_binding(sv, name@) == find_binding(sv.take(i as int), name@),
                decreases i,
            {
                assert(sv.take(i as int).drop_last() =~= sv.take(i - 1));
                if same_text(store[i - 1].0.as_str(), name) {
                    let v = store[i - 1].1.duplicate();
                    assert(sv[i - 1] == (store@[i - 1].0@, store@[i - 1].1@));
                    assert(sv.take(i as int).last() == sv[i - 1]);
                    assert(find_binding(sv, name@) == Some(v@));
                    assert(lookup(self@, cur as int, name@) == Some(v@));
                    return Some(v);
                }
                i = i - 1;
            }
            assert(sv.take(0) =~= Seq::<(Seq<char>, ObjectV)>::empty());
            match self.scopes[cur].outer {
                Some(o) => {
                    if o < cur {
                        cur = o;
                    } else {
                        return None;
                    }
                },
                None => {
                    return None;
                },
            }
        }
        None
    }

    /// Binds `name` to `val` in scope `scope` (see [`bind`]).
    pub fn set(&mut self, scope: usize, name: &str, val: Object)
        ensures
            final(self)@ == bind(old(self)@, scope as int, name@, val@),
    {
        if scope < self.scopes.len() {
            let mut sc = self.scopes.remove(scope);
            let key = crate::text::string_of(name);
            let ghost before = sc.store@;
            sc.store.push((key, val));
            assert(bindings_v(sc.store@) =~= bindings_v(before).push((name@, val@)));
            self.scopes.insert(scope, sc);
            assert(self.scopes@ =~= old(self).scopes@.update(scope as int, sc));
            assert(self@[scope as int] == bind(old(self)@, scope as int, name@, val@)[scope as int]);
            assert(self@ =~= bind(old(self)@, scope as int, name@, val@));
        }
    }
}

} // verus!
