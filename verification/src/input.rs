//! Marker types for the input components of a graph.

use vstd::prelude::*;
use std::marker::PhantomData;

verus! {

/// What an input component does with a value that is pushed into it.
pub trait InputMarker<'a> {
    type Input;

    /// Takes in an update. An input that keeps nothing ignores it.
    fn on_update(&mut self, _update: Self::Input) {
    }
}

/// An input that only passes its updates on and keeps none of them.
pub struct Input<T>(PhantomData<T>);

impl<T> Input<T> {
    /// The marker; it holds nothing, so there is nothing to tell one from
    /// another.
    pub fn new() -> Self {
        Input(PhantomData)
    }
}

impl<T> Default for Input<T> {
    fn default() -> Self {
        Input::new()
    }
}

impl<'a, T> InputMarker<'a> for Input<T> {
    type Input = T;
}

/// An input that keeps the value of its latest update.
pub struct StoredInput<T>(pub T);

impl<T> StoredInput<T> {
    /// An input that holds `value` until the first update.
    pub fn new(value: T) -> (r: Self)
        ensures
            r.0 == value,
    {
        StoredInput(value)
    }
}

impl<T: Default> Default for StoredInput<T> {
    fn default() -> (r: Self)
        ensures
            T::default.ensures((), r.0),
    {
        StoredInput::new(T::default())
    }
}

impl<'a, T> InputMarker<'a> for StoredInput<T> {
    type Input = T;

    /// Keeps the update in place of the value held before.
    fn on_update(&mut self, update: T)
        ensures
            final(self).0 == update,
    {
        self.0 = update;
    }
}

} // verus!
