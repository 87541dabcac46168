//! What makes a set of descriptors a graph, and how that is decided.

use vstd::prelude::*;
use crate::descriptor::{ComponentDescriptor, NodeId};
use crate::error::GraphError;

verus! {

/// The dependency list of descriptor `k`.
pub open spec fn deps_of(ds: Seq<ComponentDescriptor>, k: int) -> Seq<NodeId> {
    ds[k].dependency_ids@
}

/// Descriptor `j` carries the identity of an earlier descriptor.
pub open spec fn id_repeats_at(ds: Seq<ComponentDescriptor>, j: int) -> bool {
    exists|i: int| 0 <= i < j && (#[trigger] ds[i]).id == ds[j].id
}

/// Some identity is declared twice.
pub open spec fn has_repeated_id(ds: Seq<ComponentDescriptor>) -> bool {
    exists|j: int| 0 <= j < ds.len() && #[trigger] id_repeats_at(ds, j)
}

/// The first descriptor, in declaration order, that repeats an identity.
pub open spec fn first_repeated_id(ds: Seq<ComponentDescriptor>, j: int) -> bool {
    &&& 0 <= j < ds.len()
    &&& id_repeats_at(ds, j)
    &&& forall|j2: int| 0 <= j2 < j ==> !#[trigger] id_repeats_at(ds, j2)
}

/// `(k, b)` names dependency `b` of descriptor `k`.
pub open spec fn is_slot(ds: Seq<ComponentDescriptor>, k: int, b: int) -> bool {
    0 <= k < ds.len() && 0 <= b < deps_of(ds, k).len()
}

/// Declaration order of dependency slots.
pub open spec fn slot_before(k1: int, b1: int, k2: int, b2: int) -> bool {
    k1 < k2 || (k1 == k2 && b1 < b2)
}

/// Dependency `b` of descriptor `k` already occurs earlier in the same list.
pub open spec fn dep_repeats_at(ds: Seq<ComponentDescriptor>, k: int, b: int) -> bool {
    exists|a: int| 0 <= a < b && #[trigger] deps_of(ds, k)[a] == deps_of(ds, k)[b]
}

/// Some descriptor names a dependency twice.
pub open spec fn has_repeated_dependency(ds: Seq<ComponentDescriptor>) -> bool {
    exists|k: int, b: int| is_slot(ds, k, b) && #[trigger] dep_repeats_at(ds, k, b)
}

/// The first slot, in declaration order, that repeats a dependency.
pub open spec fn first_repeated_dependency(ds: Seq<ComponentDescriptor>, k: int, b: int) -> bool {
    &&& is_slot(ds, k, b)
    &&& dep_repeats_at(ds, k, b)
    &&& forall|k2: int, b2: int|
        is_slot(ds, k2, b2) && slot_before(k2, b2, k, b) ==> !#[trigger] dep_repeats_at(ds, k2, b2)
}

/// Some descriptor declares `id`.
pub open spec fn declares(ds: Seq<ComponentDescriptor>, id: NodeId) -> bool {
    exists|i: int| 0 <= i < ds.len() && (#[trigger] ds[i]).id == id
}

/// Dependency `b` of descriptor `k` names a component nobody declares.
pub open spec fn dep_unknown_at(ds: Seq<ComponentDescriptor>, k: int, b: int) -> bool {
    !declares(ds, deps_of(ds, k)[b])
}

/// Some dependency is declared by nobody.
pub open spec fn has_unknown_dependency(ds: Seq<ComponentDescriptor>) -> bool {
    exists|k: int, b: int| is_slot(ds, k, b) && #[trigger] dep_unknown_at(ds, k, b)
}

/// The first slot, in declaration order, whose dependency nobody declares.
pub open spec fn first_unknown_dependency(ds: Seq<ComponentDescriptor>, k: int, b: int) -> bool {
    &&& is_slot(ds, k, b)
    &&& dep_unknown_at(ds, k, b)
    &&& forall|k2: int, b2: int|
        is_slot(ds, k2, b2) && slot_before(k2, b2, k, b) ==> !#[trigger] dep_unknown_at(ds, k2, b2)
}

/// Component `a` declares `b` among its dependencies.
pub open spec fn depends_on(ds: Seq<ComponentDescriptor>, a: NodeId, b: NodeId) -> bool {
    exists|k: int| 0 <= k < ds.len() && (#[trigger] ds[k]).id == a && deps_of(ds, k).contains(b)
}

/// `path` is a dependency cycle: every member depends on the next one and
/// the last member depends on the first.
pub open spec fn is_cycle(ds: Seq<ComponentDescriptor>, path: Seq<NodeId>) -> bool {
    &&& path.len() > 0
    &&& forall|i: int| 0 <= i < path.len() - 1 ==> depends_on(ds, #[trigger] path[i], path[i + 1])
    &&& depends_on(ds, path[path.len() - 1], path[0])
}

/// Some component depends on itself through a chain of dependencies.
pub open spec fn has_cycle(ds: Seq<ComponentDescriptor>) -> bool {
    exists|path: Seq<NodeId>| is_cycle(ds, path)
}

/// The descriptor sets that are graphs: identities are unique, no dependency
/// is named twice by one descriptor, every dependency is declared, and no
/// component depends on itself through any chain.
pub open spec fn valid(ds: Seq<ComponentDescriptor>) -> bool {
    &&& !has_repeated_id(ds)
    &&& !has_repeated_dependency(ds)
    &&& !has_unknown_dependency(ds)
    &&& !has_cycle(ds)
}

/// The error owed for a descriptor set that is not a graph. Repeated
/// identities are reported before unknown dependencies, and those before
/// cycles; within one kind the first offence in declaration order is named.
pub open spec fn explains(ds: Seq<ComponentDescriptor>, e: GraphError) -> bool {
    match e {
        GraphError::DuplicateId(id) => {
            ||| exists|j: int| first_repeated_id(ds, j) && id == (#[trigger] ds[j]).id
            ||| (!has_repeated_id(ds) && exists|k: int, b: int| #[trigger]
                first_repeated_dependency(ds, k, b) && id == deps_of(ds, k)[b])
        },
        GraphError::UnknownDependency { from, to } => {
            &&& !has_repeated_id(ds)
            &&& !has_repeated_dependency(ds)
            &&& exists|k: int, b: int| #[trigger]
                first_unknown_dependency(ds, k, b) && from == ds[k].id && to == deps_of(ds, k)[b]
        },
        GraphError::Cycle(path) => {
            &&& !has_repeated_id(ds)
            &&& !has_repeated_dependency(ds)
            &&& !has_unknown_dependency(ds)
            &&& is_cycle(ds, path@)
            &&& path@.no_duplicates()
        },
    }
}

/// The position of the first descriptor that repeats an earlier identity.
pub fn find_repeated_id(ds: &Vec<ComponentDescriptor>) -> (r: Option<usize>)
    ensures
        match r {
            Some(j) => first_repeated_id(ds@, j as int),
            None => !has_repeated_id(ds@),
        },
{
    let mut j: usize = 0;
    while j < ds.len()
        invariant
            j <= ds@.len(),
            forall|j2: int| 0 <= j2 < j ==> !#[trigger] id_repeats_at(ds@, j2),
        decreases ds@.len() - j,
    {
        let mut i: usize = 0;
        while i < j
            invariant
                i <= j < ds@.len(),
                forall|j2: int| 0 <= j2 < j ==> !#[trigger] id_repeats_at(ds@, j2),
                forall|i2: int| 0 <= i2 < i ==> (#[trigger] ds@[i2]).id != ds@[j as int].id,
            decreases j - i,
        {
            if ds[i].id == ds[j].id {
                return Some(j);
            }
            i = i + 1;
        }
        j = j + 1;
    }
    None
}

/// The position of `id` among the descriptors.
pub fn position_of(ds: &Vec<ComponentDescriptor>, id: NodeId) -> (r: Option<usize>)
    ensures
        match r {
            Some(i) => i < ds@.len() && ds@[i as int].id == id && forall|i2: int|
                0 <= i2 < i ==> (#[trigger] ds@[i2]).id != id,
            None => !declares(ds@, id),
        },
{
    let mut i: usize = 0;
    while i < ds.len()
        invariant
            i <= ds@.len(),
            forall|i2: int| 0 <= i2 < i ==> (#[trigger] ds@[i2]).id != id,
        decreases ds@.len() - i,
    {
        if ds[i].id == id {
            return Some(i);
        }
        i = i + 1;
    }
    None
}

/// The first dependency slot, in declaration order, that repeats an earlier
/// dependency of the same descriptor.
pub fn find_repeated_dependency(ds: &Vec<ComponentDescriptor>) -> (r: Option<(usize, usize)>)
    ensures
        match r {
            Some((k, b)) => first_repeated_dependency(ds@, k as int, b as int),
            None => !has_repeated_dependency(ds@),
        },
{
    let mut k: usize = 0;
    while k < ds.len()
        invariant
            k <= ds@.len(),
            forall|k2: int, b2: int|
                is_slot(ds@, k2, b2) && k2 < k ==> !#[trigger] dep_repeats_at(ds@, k2, b2),
        decreases ds@.len() - k,
    {
        let deps = &ds[k].dependency_ids;
        let mut b: usize = 0;
        while b < deps.len()
            invariant
                k < ds@.len(),
                deps@ == deps_of(ds@, k as int),
                b <= deps@.len(),
                forall|k2: int, b2: int|
                    is_slot(ds@, k2, b2) && k2 < k ==> !#[trigger] dep_repeats_at(ds@, k2, b2),
                forall|b2: int| 0 <= b2 < b ==> !#[trigger] dep_repeats_at(ds@, k as int, b2),
            decreases deps@.len() - b,
        {
            let mut a: usize = 0;
            while a < b
                invariant
                    k < ds@.len(),
                    deps@ == deps_of(ds@, k as int),
                    a <= b < deps@.len(),
                    forall|k2: int, b2: int|
                        is_slot(ds@, k2, b2) && k2 < k ==> !#[trigger] dep_repeats_at(ds@, k2, b2),
                    forall|b2: int| 0 <= b2 < b ==> !#[trigger] dep_repeats_at(ds@, k as int, b2),
                    forall|a2: int| 0 <= a2 < a ==> #[trigger] deps@[a2] != deps@[b as int],
                decreases b - a,
            {
                if deps[a] == deps[b] {
                    return Some((k, b));
                }
                a = a + 1;
            }
            b = b + 1;
        }
        k = k + 1;
    }
    None
}

} // verus!
