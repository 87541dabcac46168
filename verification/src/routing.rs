//! The route table of a serving layer: which route answers a request.

use vstd::prelude::*;

verus! {

/// What a route answers to: a path and the name of an HTTP method.
pub struct RouteKey {
    pub path: String,
    pub method: String,
}

/// The route with this key answers requests for `path` made with `method`.
pub open spec fn answers(key: RouteKey, path: Seq<char>, method: Seq<char>) -> bool {
    key.path@ == path && key.method@ == method
}

impl RouteKey {
    /// The key of a route for `path` and `method`.
    pub fn new(path: String, method: String) -> (key: Self)
        ensures
            key.path == path,
            key.method == method,
    {
        RouteKey { path, method }
    }
}

/// The first route, in registration order, that answers requests for
/// `path` made with `method`; none where no route does.
pub fn find_route(keys: &Vec<RouteKey>, path: &String, method: &String) -> (r: Option<usize>)
    ensures
        match r {
            Some(i) => i < keys@.len() && answers(keys@[i as int], path@, method@) && forall|j: int|
                0 <= j < i ==> !answers(#[trigger] keys@[j], path@, method@),
            None => forall|j: int|
                0 <= j < keys@.len() ==> !answers(#[trigger] keys@[j], path@, method@),
        },
{
    let mut i: usize = 0;
    while i < keys.len()
        invariant
            i <= keys@.len(),
            forall|j: int| 0 <= j < i ==> !answers(#[trigger] keys@[j], path@, method@),
        decreases keys@.len() - i,
    {
        if keys[i].path == *path && keys[i].method == *method {
            return Some(i);
        }
        i = i + 1;
    }
    None
}

} // verus!
