//! A lexical scope: a mapping from names to values, plus an optional link to
//! an enclosing scope.
//!
//! Scopes are owned by an arena held by the evaluator and refer to their
//! enclosing scope by arena index, so that any number of closures can share
//! one captured scope.  `assign` inserts or overwrites a binding in this
//! scope only; walking the chain of enclosing scopes is the evaluator's job.

use vstd::prelude::*;
use crate::object::{Object, ObjM, obj_model, clone_object};

verus! {

/// Mathematical model of a scope: its bindings and the arena index of the
/// enclosing scope, if any.
pub struct EnvM {
    pub bindings: Map<Seq<char>, ObjM>,
    pub outer: Option<int>,
}

/// Model of a binding list: later entries overwrite earlier ones.
pub open spec fn store_model(s: Seq<(String, Object)>) -> Map<Seq<char>, ObjM>
    decreases s.len(),
{
    if s.len() == 0 {
        Map::empty()
    } else {
        store_model(s.drop_last()).insert(s.last().0@, obj_model(s.last().1))
    }
}

/// A scope.
#[derive(Debug, PartialEq)]
pub struct Env {
    store: Vec<(String, Object)>,
    outer: Option<usize>,
}

impl Env {
    /// Model of this scope.
    pub closed spec fn model(&self) -> EnvM {
        EnvM {
            bindings: store_model(self.store@),
            outer: match self.outer {
                Some(i) => Some(i as int),
                None => None,
            },
        }
    }

    /// A fresh scope with no bindings and no enclosing scope.
    pub fn new() -> (e: Env)
        ensures
            e.model().bindings == Map::<Seq<char>, ObjM>::empty(),
            e.model().outer is None,
    {
        Env { store: Vec::new(), outer: None }
    }

    /// A fresh scope with no bindings, enclosed by the scope at arena index
    /// `outer`.
    pub fn new_enclosed(outer: usize) -> (e: Env)
        ensures
            e.model().bindings == Map::<Seq<char>, ObjM>::empty(),
            e.model().outer == Some(outer as int),
    {
        Env { store: Vec::new(), outer: Some(outer) }
    }

    /// The arena index of the enclosing scope, if any.
    pub fn outer_index(&self) -> (r: Option<usize>)
        ensures
            match r {
                Some(i) => self.model().outer == Some(i as int),
                None => self.model().outer is None,
            },
    {
        match self.outer {
            Some(i) => Some(i),
            None => None,
        }
    }

    /// Looks `id` up in this scope alone; enclosing scopes are not searched.
    pub fn get(&self, id: &String) -> (r: Option<Object>)
        ensures
            match r {
                Some(o) => self.model().bindings.contains_key(id@) && obj_model(o)
                    == self.model().bindings[id@],
                None => !self.model().bindings.contains_key(id@),
            },
    {
        let ghost s = self.store@;
        let mut k: usize = self.store.len();
        loop
            invariant
                0 <= k <= s.len(),
                s == self.store@,
                forall|j: int| k <= j < s.len() ==> (#[trigger] s[j]).0@ != id@,
            ensures
                s == self.store@,
                ({
                    ||| (0 < k <= s.len() && s[k - 1].0@ == id@ && (forall|j: int|
                        k <= j < s.len() ==> (#[trigger] s[j]).0@ != id@))
                    ||| (k == 0 && forall|j: int| 0 <= j < s.len() ==> (#[trigger] s[j]).0@ != id@)
                }),
            decreases k,
        {
            if k == 0 {
                break;
            }
            if self.store[k - 1].0.eq(id) {
                break;
            }
            k = k - 1;
        }
        if k == 0 {
            proof {
                lemma_store_absent(s, id@);
            }
            None
        } else {
            proof {
                lemma_store_found(s, (k - 1) as int, id@);
            }
            Some(clone_object(&self.store[k - 1].1))
        }
    }

    /// Inserts or overwrites a binding in this scope.
    pub fn assign(&mut self, id: String, value: Object)
        ensures
            final(self).model().bindings == old(self).model().bindings.insert(
                id@,
                obj_model(value),
            ),
            final(self).model().outer == old(self).model().outer,
    {
        let ghost s0 = self.store@;
        let ghost idv = id@;
        let ghost vm = obj_model(value);
        self.store.push((id, value));
        proof {
            assert(self.store@.drop_last() =~= s0);
        }
    }
}

/// If no entry of `s` binds `id`, the model has no binding for `id`.
proof fn lemma_store_absent(s: Seq<(String, Object)>, id: Seq<char>)
    requires
        forall|j: int| 0 <= j < s.len() ==> (#[trigger] s[j]).0@ != id,
    ensures
        !store_model(s).contains_key(id),
    decreases s.len(),
{
    if s.len() > 0 {
        lemma_store_absent(s.drop_last(), id);
    }
}

/// If entry `k` of `s` binds `id` and no later entry does, the model binds
/// `id` to the value of entry `k`.
proof fn lemma_store_found(s: Seq<(String, Object)>, k: int, id: Seq<char>)
    requires
        0 <= k < s.len(),
        s[k].0@ == id,
        forall|j: int| k < j < s.len() ==> (#[trigger] s[j]).0@ != id,
    ensures
        store_model(s).contains_key(id),
        store_model(s)[id] == obj_model(s[k].1),
    decreases s.len(),
{
    if k == s.len() - 1 {
    } else {
        lemma_store_found(s.drop_last(), k, id);
    }
}

} // verus!
