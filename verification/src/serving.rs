//! Plain carriers that a serving layer hands to and takes from the
//! components: payloads, handlers and failures.

use vstd::prelude::*;
use std::marker::PhantomData;

verus! {

/// A payload that travels as JSON.
pub struct Json<T>(pub T);

impl<T> std::ops::Deref for Json<T> {
    type Target = T;

    fn deref(&self) -> (r: &T)
        ensures
            *r == self.0,
    {
        &self.0
    }
}

impl<T> From<T> for Json<T> {
    fn from(t: T) -> (r: Self) {
        Json(t)
    }
}

impl<T> vstd::std_specs::convert::FromSpecImpl<T> for Json<T> {
    open spec fn obeys_from_spec() -> bool {
        true
    }

    open spec fn from_spec(t: T) -> Self {
        Json(t)
    }
}

/// A failure that is answered with a server error; the message is for the
/// log only.
pub struct InternalServerError(pub String);

/// A handler of some argument list `T`, wrapped so that handlers of
/// different argument lists can be kept side by side.
pub struct IntoNonGenericHandler<H, T> {
    handler: H,
    _marker: PhantomData<T>,
}

impl<H, T> IntoNonGenericHandler<H, T> {
    /// The handler inside the wrapper.
    pub closed spec fn inner(&self) -> H {
        self.handler
    }

    /// Wraps `handler`.
    pub fn new(handler: H) -> (r: Self)
        ensures
            r.inner() == handler,
    {
        IntoNonGenericHandler { handler, _marker: PhantomData }
    }

    /// The handler inside the wrapper.
    pub fn handler(&self) -> (h: &H)
        ensures
            *h == self.inner(),
    {
        &self.handler
    }
}

} // verus!
