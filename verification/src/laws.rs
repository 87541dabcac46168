//! What holds of every build and of every round.

use vstd::prelude::*;
use crate::builder::{built, lemma_levels_exclude_cycles, represents};
use crate::descriptor::{ComponentDescriptor, NodeId};
use crate::error::{GraphError, PropagationError};
use crate::graph::{ComponentGraph, GraphView};
use crate::propagation::{
    is_plan, law_downstream_is_higher, lemma_plan_members, reaches, settling_plan,
};
use crate::registry::{holds, without, Subscription, SubscriptionId};
use crate::report::RoundReport;
use crate::round::{gathered, halted, in_prefix, is_round, reported, round_prefix, settles, yields};
use crate::validate::{
    declares, deps_of, depends_on, has_cycle, has_repeated_dependency, has_repeated_id,
    has_unknown_dependency, is_cycle, is_slot,
};

verus! {

/// In every graph a component sits at a higher level than each of the
/// components it depends on.
pub proof fn law_levels_respect_dependencies(g: GraphView, a: NodeId, b: NodeId)
    requires
        g.wf(),
        g.edge(a, b),
    ensures
        g.level_of(b) < g.level_of(a),
{
    let (k, d) = choose|k: int, d: int|
        g.is_node(k) && g.is_node(d) && g.ids[k] == a && g.ids[d] == b
            && #[trigger] g.deps[k].contains(d);
    assert(g.level_rule(k));
}

/// The subscribers of a component, as the graph lists them, are exactly
/// the components that depend on it, and its dependencies, as the graph
/// lists them, exactly the components it depends on.
pub proof fn law_subscribers_invert_dependencies(g: GraphView, k: int)
    requires
        g.wf(),
        g.is_node(k),
    ensures
        g.subscriber_ids(k).to_set() == g.subscribers_of(g.ids[k]),
        g.dependency_ids(k).to_set() == g.dependencies_of(g.ids[k]),
{
    let id = g.ids[k];
    assert forall|a: NodeId| g.subscriber_ids(k).to_set().contains(a) <==> g.subscribers_of(
        id,
    ).contains(a) by {
        if g.subscriber_ids(k).contains(a) {
            let c = choose|c: int| 0 <= c < g.subscriber_ids(k).len() && g.subscriber_ids(k)[c] == a;
            let s = g.subs[k][c];
            assert(g.subs[k].contains(s));
            assert(g.deps[s].contains(k));
        }
        if g.edge(a, id) {
            let (s, d) = choose|s: int, d: int|
                g.is_node(s) && g.is_node(d) && g.ids[s] == a && g.ids[d] == id
                    && #[trigger] g.deps[s].contains(d);
            assert(g.subs[k].contains(s));
            let c = choose|c: int| 0 <= c < g.subs[k].len() && g.subs[k][c] == s;
            assert(g.subscriber_ids(k)[c] == a);
        }
    }
    assert forall|b: NodeId| g.dependency_ids(k).to_set().contains(b) <==> g.dependencies_of(
        id,
    ).contains(b) by {
        if g.dependency_ids(k).contains(b) {
            let c = choose|c: int| 0 <= c < g.dependency_ids(k).len() && g.dependency_ids(k)[c] == b;
            let d = g.deps[k][c];
            assert(g.deps[k].contains(d));
        }
        if g.edge(id, b) {
            let (s, d) = choose|s: int, d: int|
                g.is_node(s) && g.is_node(d) && g.ids[s] == id && g.ids[d] == b
                    && #[trigger] g.deps[s].contains(d);
            let c = choose|c: int| 0 <= c < g.deps[k].len() && g.deps[k][c] == d;
            assert(g.dependency_ids(k)[c] == b);
        }
    }
}

/// A graph built from descriptors has an edge wherever a descriptor
/// declares a dependency.
pub proof fn law_declared_dependencies_are_edges(
    ds: Seq<ComponentDescriptor>,
    g: GraphView,
    a: NodeId,
    b: NodeId,
)
    requires
        g.wf(),
        represents(g, ds),
        depends_on(ds, a, b),
    ensures
        g.edge(a, b),
{
    let k = choose|k: int| 0 <= k < ds.len() && (#[trigger] ds[k]).id == a && deps_of(ds, k).contains(b);
    let c = choose|c: int| 0 <= c < deps_of(ds, k).len() && deps_of(ds, k)[c] == b;
    assert(g.dependency_ids(k) == deps_of(ds, k));
    let d = g.deps[k][c];
    assert(g.deps[k].contains(d));
}

/// Every set of descriptors with unique identities, no dependency named
/// twice, every dependency declared and no cycle builds, and in the graph
/// every declared dependency sits at a lower level than the component that
/// declares it.
pub proof fn law_acyclic_sets_build(
    ds: Seq<ComponentDescriptor>,
    r: Result<ComponentGraph, GraphError>,
    a: NodeId,
    b: NodeId,
)
    requires
        built(ds, r),
        !has_repeated_id(ds),
        !has_repeated_dependency(ds),
        !has_unknown_dependency(ds),
        !has_cycle(ds),
    ensures
        r is Ok,
        depends_on(ds, a, b) ==> r->Ok_0@.level_of(b) < r->Ok_0@.level_of(a),
{
    if depends_on(ds, a, b) {
        let g = r->Ok_0;
        law_declared_dependencies_are_edges(ds, g@, a, b);
        law_levels_respect_dependencies(g@, a, b);
    }
}

/// No set of descriptors with a cycle builds. Where nothing else is wrong
/// with the set, the error is `Cycle` and its path is a cycle of the set.
pub proof fn law_cycles_are_refused(
    ds: Seq<ComponentDescriptor>,
    r: Result<ComponentGraph, GraphError>,
)
    requires
        built(ds, r),
        has_cycle(ds),
    ensures
        r is Err,
        !has_repeated_id(ds) && !has_repeated_dependency(ds) && !has_unknown_dependency(ds) ==> (r
            matches Err(GraphError::Cycle(path)) && is_cycle(ds, path@)),
{
}

/// Where identities are unique and no dependency is named twice, a set
/// with an undeclared dependency fails with `UnknownDependency`, and the
/// error names a component of the set and a dependency of it that nobody
/// declares.
pub proof fn law_unknown_dependencies_are_named(
    ds: Seq<ComponentDescriptor>,
    r: Result<ComponentGraph, GraphError>,
)
    requires
        built(ds, r),
        !has_repeated_id(ds),
        !has_repeated_dependency(ds),
        has_unknown_dependency(ds),
    ensures
        r matches Err(GraphError::UnknownDependency { from, to }) && declares(ds, from)
            && depends_on(ds, from, to) && !declares(ds, to),
{
}

/// A graph exists for a set of descriptors only if the set has no cycle.
pub proof fn law_graphs_are_acyclic(ds: Seq<ComponentDescriptor>, g: GraphView)
    requires
        g.wf(),
        represents(g, ds),
        !has_repeated_id(ds),
    ensures
        !has_cycle(ds),
{
    assert forall|k: int, b: int| is_slot(ds, k, b) implies 0 <= #[trigger] g.deps[k][b] < ds.len()
        && ds[g.deps[k][b]].id == deps_of(ds, k)[b] by {
        assert(g.dependency_ids(k) == deps_of(ds, k));
    }
    assert forall|k: int| 0 <= k < ds.len() implies (#[trigger] g.deps[k]).len() == deps_of(
        ds,
        k,
    ).len() by {
        assert(g.dependency_ids(k) == deps_of(ds, k));
    }
    assert forall|k: int| 0 <= k < ds.len() implies #[trigger] crate::graph::level_rule(
        g.deps,
        g.levels,
        k,
    ) by {
        assert(g.level_rule(k));
    }
    lemma_levels_exclude_cycles(ds, g.deps, g.levels);
}

/// Components of one level do not depend on each other.
pub proof fn law_level_mates_are_independent(v: GraphView, a: int, b: int)
    requires
        v.wf(),
        v.is_node(a),
        v.is_node(b),
        v.levels[a] == v.levels[b],
    ensures
        !v.deps[a].contains(b),
        !v.subs[a].contains(b),
{
    assert(v.level_rule(a));
    assert(v.level_rule(b));
    if v.deps[a].contains(b) {
        let c = choose|c: int| 0 <= c < v.deps[a].len() && v.deps[a][c] == b;
        assert(v.levels[v.deps[a][c]] < v.levels[a]);
    }
    if v.subs[a].contains(b) {
        assert(v.deps[b].contains(a));
        let c = choose|c: int| 0 <= c < v.deps[b].len() && v.deps[b][c] == a;
        assert(v.levels[v.deps[b][c]] < v.levels[b]);
    }
}

/// Settling a component does not change what a component of the same or
/// a lower level is computed from.
pub proof fn law_inputs_outlast_level_mates<V>(
    v: GraphView,
    values: Seq<Option<V>>,
    a: int,
    b: int,
    x: Option<V>,
)
    requires
        v.wf(),
        v.is_node(a),
        v.is_node(b),
        v.levels[b] >= v.levels[a],
        values.len() == v.len(),
    ensures
        gathered(values.update(b, x), v.deps[a]) == gathered(values, v.deps[a]),
{
    assert(v.level_rule(a));
    assert forall|c: int| 0 <= c < v.deps[a].len() implies gathered(values.update(b, x), v.deps[a])[c]
        == gathered(values, v.deps[a])[c] by {
        assert(v.levels[v.deps[a][c]] < v.levels[a]);
    }
    assert(gathered(values.update(b, x), v.deps[a]) =~= gathered(values, v.deps[a]));
}

/// In a round every affected component settles once: the plan holds no
/// component twice.
pub proof fn law_components_settle_once(v: GraphView, origin: int, p: Seq<int>)
    requires
        is_plan(v, origin, p),
    ensures
        p.no_duplicates(),
{
}

/// When a component settles, each of its dependencies has either settled
/// earlier in the round or is out of the round's reach and keeps the value
/// it had.
pub proof fn law_dependencies_settle_first(v: GraphView, origin: int, p: Seq<int>, j: int, c: int)
    requires
        v.wf(),
        is_plan(v, origin, p),
        0 <= j < p.len(),
        0 <= c < v.deps[p[j]].len(),
    ensures
        in_prefix(p, j, v.deps[p[j]][c]) || !p.contains(v.deps[p[j]][c]),
{
    lemma_plan_members(v, origin, p, j);
    assert(v.level_rule(p[j]));
}

/// Where a round stops at a failed computation, the failed component and
/// everything downstream of it hold what they held before the round.
pub proof fn law_failure_spares_downstream<V, E, F: Fn(NodeId, Vec<Option<&V>>) -> Result<V, E>>(
    v: GraphView,
    f: F,
    before: Seq<Option<V>>,
    after: Seq<Option<V>>,
    origin: int,
    fresh: V,
    p: Seq<int>,
    m: int,
    cause: E,
    k: int,
)
    requires
        v.wf(),
        after.len() == v.len(),
        is_plan(v, origin, p),
        halted(v, f, before, after, origin, fresh, p, m, cause),
        reaches(v, p[m], k),
    ensures
        after[k] == before[k],
{
    if in_prefix(p, m, k) {
        if k != p[m] {
            law_downstream_is_higher(v, p[m], k);
        }
    }
}

/// A computation that comes back with one result only on equal inputs.
pub open spec fn deterministic<V, E, F: Fn(NodeId, Vec<Option<&V>>) -> Result<V, E>>(f: F) -> bool {
    forall|node: NodeId, a1: Vec<Option<&V>>, a2: Vec<Option<&V>>, r1: Result<V, E>, r2: Result<V, E>|
        a1@ == a2@ && #[trigger] call_ensures(f, (node, a1), r1) && #[trigger] call_ensures(
            f,
            (node, a2),
            r2,
        ) ==> r1 == r2
}

proof fn lemma_one_result<V, E, F: Fn(NodeId, Vec<Option<&V>>) -> Result<V, E>>(
    f: F,
    node: NodeId,
    inputs: Seq<Option<&V>>,
    r1: Result<V, E>,
    r2: Result<V, E>,
)
    requires
        deterministic::<V, E, F>(f),
        yields(f, node, inputs, r1),
        yields(f, node, inputs, r2),
    ensures
        r1 == r2,
{
}

/// Two runs of one round that agree on what settled before position `j`
/// hand the same inputs to the component at `j`.
proof fn lemma_same_inputs<V, E, F: Fn(NodeId, Vec<Option<&V>>) -> Result<V, E>>(
    v: GraphView,
    f: F,
    before: Seq<Option<V>>,
    a1: Seq<Option<V>>,
    a2: Seq<Option<V>>,
    origin: int,
    fresh: V,
    p: Seq<int>,
    m1: int,
    m2: int,
    j: int,
)
    requires
        v.wf(),
        before.len() == v.len(),
        is_plan(v, origin, p),
        round_prefix(v, f, before, a1, origin, fresh, p, m1),
        round_prefix(v, f, before, a2, origin, fresh, p, m2),
        0 <= j < p.len(),
        j <= m1 <= p.len(),
        j <= m2 <= p.len(),
        forall|i: int| 0 <= i < j ==> a1[#[trigger] p[i]] == a2[p[i]],
    ensures
        gathered(a1, v.deps[p[j]]) == gathered(a2, v.deps[p[j]]),
{
    let row = v.deps[p[j]];
    lemma_plan_members(v, origin, p, j);
    assert forall|c: int| 0 <= c < row.len() implies a1[#[trigger] row[c]] == a2[row[c]] by {
        law_dependencies_settle_first(v, origin, p, j, c);
    }
}

/// Two runs of one round settle the first `j` components of the plan on
/// the same values, as far as both have come.
proof fn lemma_runs_agree<V, E, F: Fn(NodeId, Vec<Option<&V>>) -> Result<V, E>>(
    v: GraphView,
    f: F,
    before: Seq<Option<V>>,
    a1: Seq<Option<V>>,
    a2: Seq<Option<V>>,
    origin: int,
    fresh: V,
    p: Seq<int>,
    m1: int,
    m2: int,
    j: int,
)
    requires
        v.wf(),
        before.len() == v.len(),
        deterministic::<V, E, F>(f),
        is_plan(v, origin, p),
        round_prefix(v, f, before, a1, origin, fresh, p, m1),
        round_prefix(v, f, before, a2, origin, fresh, p, m2),
        0 <= j <= m1 <= p.len(),
        j <= m2 <= p.len(),
    ensures
        forall|i: int| 0 <= i < j ==> a1[#[trigger] p[i]] == a2[p[i]],
    decreases j,
{
    if j > 0 {
        lemma_runs_agree(v, f, before, a1, a2, origin, fresh, p, m1, m2, j - 1);
        let k = p[j - 1];
        if k != origin {
            lemma_same_inputs(v, f, before, a1, a2, origin, fresh, p, m1, m2, j - 1);
        }
    }
}

/// A run that stopped at `m1` and a run that came at least as far as
/// `m2 > m1` cannot both be runs of one round.
proof fn lemma_stops_agree<V, E, F: Fn(NodeId, Vec<Option<&V>>) -> Result<V, E>>(
    v: GraphView,
    f: F,
    before: Seq<Option<V>>,
    a1: Seq<Option<V>>,
    a2: Seq<Option<V>>,
    origin: int,
    fresh: V,
    p: Seq<int>,
    m1: int,
    m2: int,
    cause: E,
)
    requires
        v.wf(),
        before.len() == v.len(),
        deterministic::<V, E, F>(f),
        is_plan(v, origin, p),
        halted(v, f, before, a1, origin, fresh, p, m1, cause),
        round_prefix(v, f, before, a2, origin, fresh, p, m2),
        m1 <= m2 <= p.len(),
    ensures
        m1 == m2,
{
    if m1 < m2 {
        lemma_runs_agree(v, f, before, a1, a2, origin, fresh, p, m1, m2, m1);
        lemma_same_inputs(v, f, before, a1, a2, origin, fresh, p, m1, m2, m1);
        let k = p[m1];
        lemma_one_result(f, v.ids[k], gathered(a1, v.deps[k]), Err::<V, E>(cause), Ok::<V, E>(a2[k]->0));
    }
}

/// Two runs that came equally far hold the same values.
proof fn lemma_same_values<V, E, F: Fn(NodeId, Vec<Option<&V>>) -> Result<V, E>>(
    v: GraphView,
    f: F,
    before: Seq<Option<V>>,
    a1: Seq<Option<V>>,
    a2: Seq<Option<V>>,
    origin: int,
    fresh: V,
    p: Seq<int>,
    m: int,
)
    requires
        v.wf(),
        before.len() == v.len(),
        deterministic::<V, E, F>(f),
        is_plan(v, origin, p),
        round_prefix(v, f, before, a1, origin, fresh, p, m),
        round_prefix(v, f, before, a2, origin, fresh, p, m),
        0 <= m <= p.len(),
    ensures
        a1 == a2,
{
    lemma_runs_agree(v, f, before, a1, a2, origin, fresh, p, m, m, m);
}

/// Two rounds end alike: both in success, or both refused for the same
/// origin, or both stopped at the same component for the same cause.
pub open spec fn same_ending<E>(
    r1: Result<RoundReport<E>, PropagationError<E>>,
    r2: Result<RoundReport<E>, PropagationError<E>>,
) -> bool {
    match (r1, r2) {
        (Ok(_), Ok(_)) => true,
        (Err(PropagationError::NotAnInput(a)), Err(PropagationError::NotAnInput(b))) => a == b,
        (
            Err(PropagationError::NodeComputationFailed { node: n1, cause: c1, settled: _ }),
            Err(PropagationError::NodeComputationFailed { node: n2, cause: c2, settled: _ }),
        ) => n1 == n2 && c1 == c2,
        _ => false,
    }
}

/// With a computation that is deterministic, a round is determined by the
/// graph, the values before it, the origin and the new value: any two runs
/// leave the same values and end alike, in success or with the same error.
pub proof fn law_rounds_are_deterministic<V, E, F, S>(
    v: GraphView,
    f: F,
    es: Seq<Subscription<S>>,
    before: Seq<Option<V>>,
    origin: NodeId,
    fresh: V,
    a1: Seq<Option<V>>,
    r1: Result<RoundReport<E>, PropagationError<E>>,
    a2: Seq<Option<V>>,
    r2: Result<RoundReport<E>, PropagationError<E>>,
) where F: Fn(NodeId, Vec<Option<&V>>) -> Result<V, E>, S: Fn(NodeId, &V) -> Result<(), E>
    requires
        v.wf(),
        before.len() == v.len(),
        deterministic::<V, E, F>(f),
        is_round(v, f, es, before, a1, origin, fresh, r1),
        is_round(v, f, es, before, a2, origin, fresh, r2),
    ensures
        a1 == a2,
        same_ending(r1, r2),
{
    let o = v.position(origin);
    let p = settling_plan(v, o);
    if v.is_input(origin) {
        let n = p.len() as int;
        match (r1, r2) {
            (Ok(_), Ok(_)) => {
                lemma_same_values(v, f, before, a1, a2, o, fresh, p, n);
            },
            (
                Err(PropagationError::NodeComputationFailed { node, cause, settled }),
                Ok(_),
            ) => {
                let m = choose|m: int| #[trigger]
                    halted(v, f, before, a1, o, fresh, p, m, cause) && node == v.ids[p[m]]
                        && reported(v, es, a1, p, m, settled@);
                lemma_stops_agree(v, f, before, a1, a2, o, fresh, p, m, n, cause);
            },
            (
                Ok(_),
                Err(PropagationError::NodeComputationFailed { node, cause, settled }),
            ) => {
                let m = choose|m: int| #[trigger]
                    halted(v, f, before, a2, o, fresh, p, m, cause) && node == v.ids[p[m]]
                        && reported(v, es, a2, p, m, settled@);
                lemma_stops_agree(v, f, before, a2, a1, o, fresh, p, m, n, cause);
            },
            (
                Err(
                    PropagationError::NodeComputationFailed {
                        node: node1,
                        cause: cause1,
                        settled: settled1,
                    },
                ),
                Err(
                    PropagationError::NodeComputationFailed {
                        node: node2,
                        cause: cause2,
                        settled: settled2,
                    },
                ),
            ) => {
                let m1 = choose|m: int| #[trigger]
                    halted(v, f, before, a1, o, fresh, p, m, cause1) && node1 == v.ids[p[m]]
                        && reported(v, es, a1, p, m, settled1@);
                let m2 = choose|m: int| #[trigger]
                    halted(v, f, before, a2, o, fresh, p, m, cause2) && node2 == v.ids[p[m]]
                        && reported(v, es, a2, p, m, settled2@);
                if m1 <= m2 {
                    lemma_stops_agree(v, f, before, a1, a2, o, fresh, p, m1, m2, cause1);
                } else {
                    lemma_stops_agree(v, f, before, a2, a1, o, fresh, p, m2, m1, cause2);
                }
                lemma_same_values(v, f, before, a1, a2, o, fresh, p, m1);
            },
            _ => {},
        }
    }
}

/// A sequence of rounds, one update after the other: `states` holds the
/// values before the first round and after every round, `results` what
/// each round came back with.
pub open spec fn is_run<V, E, F, S>(
    v: GraphView,
    f: F,
    es: Seq<Subscription<S>>,
    updates: Seq<(NodeId, V)>,
    states: Seq<Seq<Option<V>>>,
    results: Seq<Result<RoundReport<E>, PropagationError<E>>>,
) -> bool where F: Fn(NodeId, Vec<Option<&V>>) -> Result<V, E>, S: Fn(NodeId, &V) -> Result<(), E> {
    &&& states.len() == updates.len() + 1
    &&& results.len() == updates.len()
    &&& states[0].len() == v.len()
    &&& forall|i: int|
        0 <= i < updates.len() ==> is_round(
            v,
            f,
            es,
            states[i],
            #[trigger] states[i + 1],
            updates[i].0,
            updates[i].1,
            results[i],
        )
}

/// Two runs of one sequence of updates agree on the values after each of
/// the first `n` rounds and on how these rounds ended.
proof fn lemma_runs_match<V, E, F, S>(
    v: GraphView,
    f: F,
    es: Seq<Subscription<S>>,
    updates: Seq<(NodeId, V)>,
    s1: Seq<Seq<Option<V>>>,
    r1: Seq<Result<RoundReport<E>, PropagationError<E>>>,
    s2: Seq<Seq<Option<V>>>,
    r2: Seq<Result<RoundReport<E>, PropagationError<E>>>,
    n: int,
) where F: Fn(NodeId, Vec<Option<&V>>) -> Result<V, E>, S: Fn(NodeId, &V) -> Result<(), E>
    requires
        v.wf(),
        deterministic::<V, E, F>(f),
        is_run(v, f, es, updates, s1, r1),
        is_run(v, f, es, updates, s2, r2),
        s1[0] == s2[0],
        0 <= n <= updates.len(),
    ensures
        forall|i: int| 0 <= i <= n ==> #[trigger] s1[i] == s2[i],
        forall|i: int| 0 <= i <= n ==> (#[trigger] s1[i]).len() == v.len(),
        forall|i: int| 0 <= i < n ==> same_ending(#[trigger] r1[i], r2[i]),
    decreases n,
{
    if n > 0 {
        lemma_runs_match(v, f, es, updates, s1, r1, s2, r2, n - 1);
        let i = n - 1;
        law_rounds_are_deterministic(
            v,
            f,
            es,
            s1[i],
            updates[i].0,
            updates[i].1,
            s1[i + 1],
            r1[i],
            s2[i + 1],
            r2[i],
        );
    }
}

/// Identical sequences of updates on one graph, from the same values and
/// with a deterministic computation, settle on identical values after
/// every round and end every round alike.
pub proof fn law_runs_are_deterministic<V, E, F, S>(
    v: GraphView,
    f: F,
    es: Seq<Subscription<S>>,
    updates: Seq<(NodeId, V)>,
    s1: Seq<Seq<Option<V>>>,
    r1: Seq<Result<RoundReport<E>, PropagationError<E>>>,
    s2: Seq<Seq<Option<V>>>,
    r2: Seq<Result<RoundReport<E>, PropagationError<E>>>,
) where F: Fn(NodeId, Vec<Option<&V>>) -> Result<V, E>, S: Fn(NodeId, &V) -> Result<(), E>
    requires
        v.wf(),
        deterministic::<V, E, F>(f),
        is_run(v, f, es, updates, s1, r1),
        is_run(v, f, es, updates, s2, r2),
        s1[0] == s2[0],
    ensures
        s1 == s2,
        forall|i: int| 0 <= i < updates.len() ==> same_ending(#[trigger] r1[i], r2[i]),
{
    lemma_runs_match(v, f, es, updates, s1, r1, s2, r2, updates.len() as int);
}

/// Replaying an update that went through changes nothing: with a
/// deterministic computation, a second round with the same origin and the
/// same value goes through as well and leaves every value as it is.
pub proof fn law_replay_changes_nothing<V, E, F, S>(
    v: GraphView,
    f: F,
    es: Seq<Subscription<S>>,
    before: Seq<Option<V>>,
    origin: NodeId,
    fresh: V,
    a1: Seq<Option<V>>,
    r1: Result<RoundReport<E>, PropagationError<E>>,
    a2: Seq<Option<V>>,
    r2: Result<RoundReport<E>, PropagationError<E>>,
) where F: Fn(NodeId, Vec<Option<&V>>) -> Result<V, E>, S: Fn(NodeId, &V) -> Result<(), E>
    requires
        v.wf(),
        before.len() == v.len(),
        deterministic::<V, E, F>(f),
        is_round(v, f, es, before, a1, origin, fresh, r1),
        r1 is Ok,
        is_round(v, f, es, a1, a2, origin, fresh, r2),
    ensures
        r2 is Ok,
        a2 == a1,
{
    let o = v.position(origin);
    let p = settling_plan(v, o);
    let n = p.len() as int;
    // The values after the first round are themselves what a round that
    // starts from them arrives at.
    match r2 {
        Ok(_) => {},
        Err(PropagationError::NodeComputationFailed { node, cause, settled }) => {
            let m = choose|m: int| #[trigger]
                halted(v, f, a1, a2, o, fresh, p, m, cause) && node == v.ids[p[m]] && reported(
                    v,
                    es,
                    a2,
                    p,
                    m,
                    settled@,
                );
            lemma_stops_agree(v, f, a1, a2, a1, o, fresh, p, m, n, cause);
        },
        _ => {},
    }
    lemma_same_values(v, f, a1, a1, a2, o, fresh, p, n);
}

/// Taking a subscription back twice is the same as taking it back once.
pub proof fn law_unsubscribe_is_idempotent<S>(es: Seq<Subscription<S>>, id: SubscriptionId)
    requires
        forall|i: int, j: int|
            0 <= i < j < es.len() ==> (#[trigger] es[i]).id != (#[trigger] es[j]).id,
    ensures
        !holds(without(es, id), id),
        without(without(es, id), id) == without(es, id),
{
}

} // verus!
