//! Building a graph: a set of descriptors is checked, resolved and levelled
//! in one step, and either a whole graph or an error comes back.

use vstd::prelude::*;
use crate::descriptor::{Component, ComponentDescriptor, NodeId};
use crate::error::GraphError;
use crate::graph::{
    identities, ints, is_schedule, labelled, level_rule, naturals, rows, rows_within,
    ComponentGraph, GraphView,
};
use crate::resolve::{invert, resolve, resolves, rows_ascending, rows_distinct, rows_inverse};
use crate::schedule::schedule;
use crate::traversal::{assign_levels, is_row_cycle};
use crate::validate::{
    declares, dep_repeats_at, deps_of, depends_on, explains, find_repeated_dependency,
    find_repeated_id, has_cycle, has_repeated_dependency, has_repeated_id, id_repeats_at,
    is_cycle, valid,
};

verus! {

/// The graph `v` holds exactly the components and dependencies that the
/// descriptors declare, in declaration order.
pub open spec fn represents(v: GraphView, ds: Seq<ComponentDescriptor>) -> bool {
    &&& v.ids.len() == ds.len()
    &&& forall|k: int| 0 <= k < ds.len() ==> #[trigger] v.ids[k] == ds[k].id
    &&& forall|k: int| 0 <= k < ds.len() ==> #[trigger] v.dependency_ids(k) == deps_of(ds, k)
}

/// What a build owes for the descriptors `ds`: on the valid sets the graph
/// that represents them, on every other set the error that explains why
/// it is none.
pub open spec fn built(ds: Seq<ComponentDescriptor>, r: Result<ComponentGraph, GraphError>) -> bool {
    match r {
        Ok(g) => valid(ds) && g.wf() && represents(g@, ds),
        Err(e) => !valid(ds) && explains(ds, e),
    }
}

/// The position at which the descriptors declare `id`.
pub open spec fn declared_at(ds: Seq<ComponentDescriptor>, id: NodeId) -> int {
    choose|k: int| 0 <= k < ds.len() && (#[trigger] ds[k]).id == id
}

/// Without repeated identities an identity stands at one position only.
pub proof fn lemma_one_position(ds: Seq<ComponentDescriptor>, i: int, j: int)
    requires
        !has_repeated_id(ds),
        0 <= i < ds.len(),
        0 <= j < ds.len(),
        ds[i].id == ds[j].id,
    ensures
        i == j,
{
    if i < j {
        assert(id_repeats_at(ds, j));
    } else if j < i {
        assert(id_repeats_at(ds, i));
    }
}

/// Resolved rows of descriptors without repeated dependencies hold no
/// position twice.
proof fn lemma_rows_distinct(ds: Seq<ComponentDescriptor>, deps: Seq<Seq<int>>)
    requires
        !has_repeated_dependency(ds),
        resolves(ds, deps),
    ensures
        rows_distinct(deps),
        rows_within(deps, ds.len() as int),
{
    assert forall|k: int| 0 <= k < deps.len() implies (#[trigger] deps[k]).no_duplicates() by {
        assert forall|a: int, b: int|
            0 <= a < deps[k].len() && 0 <= b < deps[k].len() && a != b implies deps[k][a]
            != deps[k][b] by {
            if deps[k][a] == deps[k][b] {
                if a < b {
                    assert(dep_repeats_at(ds, k, b));
                } else {
                    assert(dep_repeats_at(ds, k, a));
                }
            }
        }
    }
}

/// A dependency between two identities is an edge between their positions,
/// and the level drops along it.
proof fn lemma_level_drops(
    ds: Seq<ComponentDescriptor>,
    deps: Seq<Seq<int>>,
    levels: Seq<nat>,
    a: NodeId,
    b: NodeId,
)
    requires
        !has_repeated_id(ds),
        resolves(ds, deps),
        forall|k: int| 0 <= k < ds.len() ==> #[trigger] level_rule(deps, levels, k),
        depends_on(ds, a, b),
    ensures
        declares(ds, a),
        declares(ds, b),
        levels[declared_at(ds, b)] < levels[declared_at(ds, a)],
{
    let k = choose|k: int| 0 <= k < ds.len() && (#[trigger] ds[k]).id == a && deps_of(ds, k).contains(b);
    let c = choose|c: int| 0 <= c < deps_of(ds, k).len() && deps_of(ds, k)[c] == b;
    let d = deps[k][c];
    assert(level_rule(deps, levels, k));
    lemma_one_position(ds, k, declared_at(ds, a));
    lemma_one_position(ds, d, declared_at(ds, b));
}

/// Along a chain of dependencies the level falls by at least one with every step.
proof fn lemma_descent(
    ds: Seq<ComponentDescriptor>,
    deps: Seq<Seq<int>>,
    levels: Seq<nat>,
    path: Seq<NodeId>,
    i: int,
)
    requires
        !has_repeated_id(ds),
        resolves(ds, deps),
        forall|k: int| 0 <= k < ds.len() ==> #[trigger] level_rule(deps, levels, k),
        is_cycle(ds, path),
        0 <= i < path.len(),
    ensures
        levels[declared_at(ds, path[i])] + i <= levels[declared_at(ds, path[0])],
    decreases i,
{
    if i > 0 {
        lemma_descent(ds, deps, levels, path, i - 1);
        lemma_level_drops(ds, deps, levels, path[i - 1], path[i]);
    }
}

/// Levels that follow the rule leave no room for a cycle.
pub proof fn lemma_levels_exclude_cycles(
    ds: Seq<ComponentDescriptor>,
    deps: Seq<Seq<int>>,
    levels: Seq<nat>,
)
    requires
        !has_repeated_id(ds),
        resolves(ds, deps),
        forall|k: int| 0 <= k < ds.len() ==> #[trigger] level_rule(deps, levels, k),
    ensures
        !has_cycle(ds),
{
    if has_cycle(ds) {
        let path = choose|path: Seq<NodeId>| is_cycle(ds, path);
        let last = path.len() - 1;
        lemma_descent(ds, deps, levels, path, last);
        lemma_level_drops(ds, deps, levels, path[last], path[0]);
    }
}

/// A cycle between positions is a cycle between the identities there.
proof fn lemma_cycle_of_ids(ds: Seq<ComponentDescriptor>, deps: Seq<Seq<int>>, c: Seq<int>, path: Seq<NodeId>)
    requires
        !has_repeated_id(ds),
        resolves(ds, deps),
        is_row_cycle(deps, c),
        path.len() == c.len(),
        forall|i: int| 0 <= i < c.len() ==> #[trigger] path[i] == ds[c[i]].id,
    ensures
        is_cycle(ds, path),
        path.no_duplicates(),
{
    assert forall|i: int, j: int|
        0 <= i < path.len() && 0 <= j < path.len() && i != j implies path[i] != path[j] by {
        if path[i] == path[j] {
            lemma_one_position(ds, c[i], c[j]);
        }
    }
}

/// The identities declared at the given positions.
fn identities_at(ds: &Vec<ComponentDescriptor>, positions: &Vec<usize>) -> (r: Vec<NodeId>)
    requires
        forall|i: int| 0 <= i < positions@.len() ==> (#[trigger] positions@[i]) < ds@.len(),
    ensures
        r@.len() == positions@.len(),
        forall|i: int| 0 <= i < r@.len() ==> #[trigger] r@[i] == ds@[positions@[i] as int].id,
{
    let mut r: Vec<NodeId> = Vec::new();
    let mut i: usize = 0;
    while i < positions.len()
        invariant
            i <= positions@.len(),
            r@.len() == i,
            forall|j: int| 0 <= j < positions@.len() ==> (#[trigger] positions@[j]) < ds@.len(),
            forall|j: int| 0 <= j < i ==> #[trigger] r@[j] == ds@[positions@[j] as int].id,
        decreases positions@.len() - i,
    {
        r.push(ds[positions[i]].id);
        i = i + 1;
    }
    r
}

/// One component for every descriptor, with its dependencies as declared
/// and its subscribers as the inverted rows list them.
fn label(ds: &Vec<ComponentDescriptor>, subs: &Vec<Vec<usize>>) -> (cs: Vec<Component>)
    requires
        subs@.len() == ds@.len(),
        rows_within(rows(subs@), ds@.len() as int),
    ensures
        cs@.len() == ds@.len(),
        forall|k: int|
            0 <= k < ds@.len() ==> (#[trigger] cs@[k]).id == ds@[k].id && cs@[k].dependencies@
                == deps_of(ds@, k) && cs@[k].subscribers@.len() == subs@[k]@.len(),
        forall|k: int, a: int|
            0 <= k < ds@.len() && 0 <= a < subs@[k]@.len() ==> #[trigger] cs@[k].subscribers@[a]
                == ds@[subs@[k]@[a] as int].id,
{
    let mut cs: Vec<Component> = Vec::new();
    let mut k: usize = 0;
    while k < ds.len()
        invariant
            k <= ds@.len(),
            cs@.len() == k,
            subs@.len() == ds@.len(),
            rows_within(rows(subs@), ds@.len() as int),
            forall|j: int|
                0 <= j < k ==> (#[trigger] cs@[j]).id == ds@[j].id && cs@[j].dependencies@
                    == deps_of(ds@, j) && cs@[j].subscribers@.len() == subs@[j]@.len(),
            forall|j: int, a: int|
                0 <= j < k && 0 <= a < subs@[j]@.len() ==> #[trigger] cs@[j].subscribers@[a]
                    == ds@[subs@[j]@[a] as int].id,
        decreases ds@.len() - k,
    {
        let mut c = Component::new(ds[k].id);
        let declared = &ds[k].dependency_ids;
        let mut b: usize = 0;
        while b < declared.len()
            invariant
                b <= declared@.len(),
                c.id == ds@[k as int].id,
                c.subscribers@.len() == 0,
                c.dependencies@ == declared@.subrange(0, b as int),
            decreases declared@.len() - b,
        {
            c.add_dependency(declared[b]);
            b = b + 1;
        }
        let row = &subs[k];
        let mut a: usize = 0;
        while a < row.len()
            invariant
                k < ds@.len(),
                subs@.len() == ds@.len(),
                row@ == subs@[k as int]@,
                rows_within(rows(subs@), ds@.len() as int),
                a <= row@.len(),
                c.id == ds@[k as int].id,
                c.dependencies@ == declared@,
                c.subscribers@.len() == a,
                forall|a2: int|
                    0 <= a2 < a ==> #[trigger] c.subscribers@[a2] == ds@[row@[a2] as int].id,
            decreases row@.len() - a,
        {
            let s = row[a];
            assert(rows(subs@)[k as int][a as int] == s as int);
            c.add_subscriber(ds[s].id);
            a = a + 1;
        }
        cs.push(c);
        k = k + 1;
    }
    cs
}

/// Resolves a set of descriptors into a validated graph.
///
/// The build succeeds exactly on the valid sets. It fails with
/// `DuplicateId` when an identity is declared twice or a descriptor names a
/// dependency twice, with `UnknownDependency` when a dependency is not
/// declared, and with `Cycle` when a component depends on itself through
/// some chain; the earlier kind wins where several apply. The graph that
/// comes back holds the declared components in declaration order, the
/// subscriber relation as the inverse of the dependencies, and levels that
/// follow the rule.
pub fn build(descriptors: &Vec<ComponentDescriptor>) -> (r: Result<ComponentGraph, GraphError>)
    ensures
        built(descriptors@, r),
{
    let ds = descriptors;
    match find_repeated_id(ds) {
        Some(j) => {
            return Err(GraphError::DuplicateId(ds[j].id));
        },
        None => {},
    }
    match find_repeated_dependency(ds) {
        Some((k, b)) => {
            return Err(GraphError::DuplicateId(ds[k].dependency_ids[b]));
        },
        None => {},
    }
    let deps = match resolve(ds) {
        Ok(deps) => deps,
        Err((k, b)) => {
            return Err(
                GraphError::UnknownDependency { from: ds[k].id, to: ds[k].dependency_ids[b] },
            );
        },
    };
    proof {
        lemma_rows_distinct(ds@, rows(deps@));
    }
    let levels = match assign_levels(&deps) {
        Ok(levels) => levels,
        Err(c) => {
            proof {
                assert forall|i: int| 0 <= i < c@.len() implies (#[trigger] c@[i]) < ds@.len() by {
                    assert(0 <= ints(c@)[i] < ds@.len());
                }
            }
            let path = identities_at(ds, &c);
            proof {
                lemma_cycle_of_ids(ds@, rows(deps@), ints(c@), path@);
            }
            return Err(GraphError::Cycle(path));
        },
    };
    let subs = invert(&deps);
    let order = schedule(&levels);
    let components = label(ds, &subs);
    proof {
        lemma_levels_exclude_cycles(ds@, rows(deps@), naturals(levels@));
        let v = GraphView {
            ids: identities(components@),
            deps: rows(deps@),
            subs: rows(subs@),
            levels: naturals(levels@),
            order: ints(order@),
        };
        lemma_assembled(ds@, components@, v);
    }
    Ok(ComponentGraph::from_parts(components, deps, subs, levels, order))
}

/// The parts that a build has put together form a graph of the descriptors.
proof fn lemma_assembled(ds: Seq<ComponentDescriptor>, cs: Seq<Component>, v: GraphView)
    requires
        !has_repeated_id(ds),
        resolves(ds, v.deps),
        rows_distinct(v.deps),
        rows_within(v.deps, ds.len() as int),
        v.subs.len() == ds.len(),
        rows_within(v.subs, ds.len() as int),
        rows_ascending(v.subs),
        rows_inverse(v.deps, v.subs),
        v.levels.len() == ds.len(),
        forall|k: int| 0 <= k < ds.len() ==> #[trigger] level_rule(v.deps, v.levels, k),
        is_schedule(v.levels, v.order),
        v.ids == identities(cs),
        cs.len() == ds.len(),
        forall|k: int|
            0 <= k < ds.len() ==> (#[trigger] cs[k]).id == ds[k].id && cs[k].dependencies@
                == deps_of(ds, k) && cs[k].subscribers@.len() == v.subs[k].len(),
        forall|k: int, a: int|
            0 <= k < ds.len() && 0 <= a < v.subs[k].len() ==> #[trigger] cs[k].subscribers@[a]
                == ds[v.subs[k][a]].id,
    ensures
        v.wf(),
        labelled(cs, v),
        represents(v, ds),
{
    assert(v.ids_distinct()) by {
        assert forall|i: int, j: int| 0 <= i < j < v.ids.len() implies #[trigger] v.ids[i]
            != #[trigger] v.ids[j] by {
            if v.ids[i] == v.ids[j] {
                lemma_one_position(ds, i, j);
            }
        }
    }
    assert forall|k: int| 0 <= k < cs.len() implies (#[trigger] cs[k]).id == v.ids[k]
        && cs[k].dependencies@ == v.dependency_ids(k) && cs[k].subscribers@ == v.subscriber_ids(
        k,
    ) by {
        assert forall|b: int| 0 <= b < v.deps[k].len() implies v.dependency_ids(k)[b] == deps_of(
            ds,
            k,
        )[b] by {}
        assert forall|a: int| 0 <= a < v.subs[k].len() implies v.subscriber_ids(k)[a]
            == cs[k].subscribers@[a] by {}
    }
    assert forall|k: int| 0 <= k < ds.len() implies #[trigger] v.dependency_ids(k) == deps_of(
        ds,
        k,
    ) by {}
}

impl ComponentGraph {
    /// Builds the graph that the given fields declare: a component for each
    /// field, then the dependency and subscriber edges, then validation.
    pub fn from_fields(fields: &Vec<ComponentDescriptor>) -> (r: Result<ComponentGraph, GraphError>)
        ensures
            built(fields@, r),
    {
        build(fields)
    }
}

} // verus!
