//! Managed state: values that a serving layer keeps for its handlers, at
//! most one of each type.

use vstd::prelude::*;
use std::any::TypeId;
use std::sync::Arc;

verus! {

/// Managed state, shared between all who hold a copy of the handle.
pub struct State<T>(Arc<T>);

impl<T> State<T> {
    /// The value behind the handle.
    pub closed spec fn value(&self) -> T {
        *self.0
    }

    /// Puts `t` under management.
    pub fn new(t: T) -> (r: Self)
        ensures
            r.value() == t,
    {
        State(Arc::new(t))
    }

    /// Another handle to the same value.
    pub fn share(&self) -> (r: Self)
        ensures
            r.value() == self.value(),
    {
        State(self.0.clone())
    }
}

impl<T> std::ops::Deref for State<T> {
    type Target = T;

    fn deref(&self) -> (r: &T)
        ensures
            *r == self.value(),
    {
        &self.0
    }
}

/// The identity of a type, as `std::any::TypeId` gives it. Nothing is
/// known of such a value but whether it equals another.
#[verifier::external_type_specification]
#[verifier::external_body]
pub struct ExTypeId(TypeId);

/// Calls `TypeId::eq`. Two type identities compare equal exactly when
/// they are the same value.
#[verifier::external_body]
fn same_type(a: &TypeId, b: &TypeId) -> (r: bool)
    ensures
        r == (*a == *b),
{
    a == b
}

/// Values kept by the identity of their type, at most one for each type.
pub struct StateMap<B> {
    keys: Vec<TypeId>,
    values: Vec<B>,
}

impl<B> StateMap<B> {
    /// Where the value kept for `key` stands.
    pub closed spec fn slot(&self, key: TypeId) -> int {
        choose|i: int| 0 <= i < self.keys@.len() && self.keys@[i] == key
    }

    /// Each value goes with one type, and no type has two values.
    pub closed spec fn wf(&self) -> bool {
        &&& self.keys@.len() == self.values@.len()
        &&& self.keys@.no_duplicates()
    }
}

impl<B> View for StateMap<B> {
    type V = Map<TypeId, B>;

    /// The value kept for each type that has one.
    closed spec fn view(&self) -> Map<TypeId, B> {
        Map::new(|key: TypeId| self.keys@.contains(key), |key: TypeId| self.values@[self.slot(key)])
    }
}

impl<B> StateMap<B> {
    /// The map without values.
    pub fn new() -> (r: Self)
        ensures
            r.wf(),
            r@ == Map::<TypeId, B>::empty(),
    {
        StateMap { keys: Vec::new(), values: Vec::new() }
    }

    /// Keeps `val` for the type `key`, which has no value yet.
    pub fn insert(&mut self, key: TypeId, val: B)
        requires
            old(self).wf(),
            !old(self)@.contains_key(key),
        ensures
            final(self).wf(),
            final(self)@ == old(self)@.insert(key, val),
    {
        let ghost keys0 = self.keys@;
        self.keys.push(key);
        self.values.push(val);
        proof {
            let n = keys0.len() as int;
            assert(self.keys@[n] == key);
            assert forall|k: TypeId| #[trigger] self@.contains_key(k) <==> old(self)@.insert(
                key,
                val,
            ).contains_key(k) by {
                if keys0.contains(k) {
                    let i = choose|i: int| 0 <= i < keys0.len() && keys0[i] == k;
                    assert(self.keys@[i] == k);
                }
            }
        }
    }

    /// The value kept for the type `key`.
    pub fn get(&self, key: TypeId) -> (r: Option<&B>)
        requires
            self.wf(),
        ensures
            match r {
                Some(val) => self@.contains_key(key) && *val == self@[key],
                None => !self@.contains_key(key),
            },
    {
        let mut i: usize = 0;
        while i < self.keys.len()
            invariant
                self.wf(),
                i <= self.keys@.len(),
                forall|j: int| 0 <= j < i ==> self.keys@[j] != key,
            decreases self.keys@.len() - i,
        {
            if same_type(&self.keys[i], &key) {
                return Some(&self.values[i]);
            }
            i = i + 1;
        }
        None
    }
}

} // verus!
