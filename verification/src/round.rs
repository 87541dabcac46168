//! One propagation round: the change of one input is carried to every
//! component it reaches, each settling exactly once on a value computed
//! from the settled values of all its dependencies.

use vstd::prelude::*;
use crate::descriptor::NodeId;
use crate::error::PropagationError;
use crate::graph::{ints, precedes, ComponentGraph, GraphView};
use crate::propagation::{
    is_plan, law_origin_settles_first, lemma_dependencies_earlier, lemma_plan_members,
    lemma_plan_unique, plan, settling_plan,
};
use crate::registry::{Subscription, SubscriptionRegistry};
use crate::report::{Delivery, RoundReport, Settlement};

verus! {

/// The current values of the components listed in `row`, in that order;
/// a component that never settled has none.
pub open spec fn gathered<'a, V>(values: Seq<Option<V>>, row: Seq<int>) -> Seq<Option<&'a V>> {
    Seq::new(
        row.len(),
        |c: int|
            match values[row[c]] {
                Some(x) => Some(&x),
                None => None,
            },
    )
}

/// The computation `f` may be called on every input.
pub open spec fn accepts<V, E, F: Fn(NodeId, Vec<Option<&V>>) -> Result<V, E>>(f: F) -> bool {
    forall|node: NodeId, args: Vec<Option<&V>>| call_requires(f, (node, args))
}

/// Called for component `node` on the dependency values `inputs`, the
/// computation `f` may come back with `r`.
pub open spec fn yields<V, E, F: Fn(NodeId, Vec<Option<&V>>) -> Result<V, E>>(
    f: F,
    node: NodeId,
    inputs: Seq<Option<&V>>,
    r: Result<V, E>,
) -> bool {
    exists|args: Vec<Option<&V>>| args@ == inputs && #[trigger] call_ensures(f, (node, args), r)
}

/// Every callback may be called on every value.
pub open spec fn listens<V, E, S: Fn(NodeId, &V) -> Result<(), E>>(
    es: Seq<Subscription<S>>,
) -> bool {
    forall|i: int, node: NodeId, x: &V|
        0 <= i < es.len() ==> #[trigger] call_requires(es[i].callback, (node, x))
}

/// `ds` holds one delivery of the value `x` for each of the first `upto`
/// subscriptions that is registered for `node`, in registration order, and
/// each outcome is one that the callback may come back with.
pub open spec fn delivered<V, E, S: Fn(NodeId, &V) -> Result<(), E>>(
    es: Seq<Subscription<S>>,
    node: NodeId,
    x: V,
    ds: Seq<Delivery<E>>,
    upto: int,
) -> bool
    decreases upto,
{
    if upto <= 0 {
        ds.len() == 0
    } else if es[upto - 1].node == node {
        &&& ds.len() > 0
        &&& ds[ds.len() - 1].subscription == es[upto - 1].id
        &&& call_ensures(es[upto - 1].callback, (node, &x), ds[ds.len() - 1].outcome)
        &&& delivered(es, node, x, ds.drop_last(), upto - 1)
    } else {
        delivered(es, node, x, ds, upto - 1)
    }
}

/// Component `k` is among the first `m` of the plan.
pub open spec fn in_prefix(plan: Seq<int>, m: int, k: int) -> bool {
    exists|i: int| 0 <= i < m && #[trigger] plan[i] == k
}

/// The value `x` is one that component `k` may settle on while the
/// components hold `values`: the new value for the origin, and for every
/// other component what its computation yields on the values of its
/// dependencies.
pub open spec fn settles<V, E, F: Fn(NodeId, Vec<Option<&V>>) -> Result<V, E>>(
    v: GraphView,
    f: F,
    values: Seq<Option<V>>,
    origin: int,
    fresh: V,
    k: int,
    x: V,
) -> bool {
    if k == origin {
        x == fresh
    } else {
        yields(f, v.ids[k], gathered(values, v.deps[k]), Ok(x))
    }
}

/// The state of the values once the first `m` components of the plan have
/// settled: each of them holds a value it may settle on, given the values
/// that its dependencies hold, and every other component holds what it
/// held before the round.
pub open spec fn round_prefix<V, E, F: Fn(NodeId, Vec<Option<&V>>) -> Result<V, E>>(
    v: GraphView,
    f: F,
    before: Seq<Option<V>>,
    after: Seq<Option<V>>,
    origin: int,
    fresh: V,
    plan: Seq<int>,
    m: int,
) -> bool {
    &&& after.len() == before.len()
    &&& forall|i: int|
        0 <= i < m ==> (#[trigger] after[plan[i]]) is Some && settles(
            v,
            f,
            after,
            origin,
            fresh,
            plan[i],
            after[plan[i]]->0,
        )
    &&& forall|k: int|
        0 <= k < after.len() && !in_prefix(plan, m, k) ==> #[trigger] after[k] == before[k]
}

/// The report lists the first `m` components of the plan, each with the
/// deliveries of the value it holds.
pub open spec fn reported<V, E, S: Fn(NodeId, &V) -> Result<(), E>>(
    v: GraphView,
    es: Seq<Subscription<S>>,
    values: Seq<Option<V>>,
    plan: Seq<int>,
    m: int,
    settled: Seq<Settlement<E>>,
) -> bool {
    &&& settled.len() == m
    &&& forall|i: int|
        0 <= i < m ==> (#[trigger] settled[i]).node == v.ids[plan[i]] && values[plan[i]] is Some
            && delivered(es, settled[i].node, values[plan[i]]->0, settled[i].deliveries@, es.len() as int)
}

/// The round stopped at position `m` of the plan: the components before
/// it have settled, the computation of the component there failed with
/// `cause` on the values of its dependencies, and nothing else changed.
pub open spec fn halted<V, E, F: Fn(NodeId, Vec<Option<&V>>) -> Result<V, E>>(
    v: GraphView,
    f: F,
    before: Seq<Option<V>>,
    after: Seq<Option<V>>,
    origin: int,
    fresh: V,
    plan: Seq<int>,
    m: int,
    cause: E,
) -> bool {
    &&& 0 <= m < plan.len()
    &&& plan[m] != origin
    &&& round_prefix(v, f, before, after, origin, fresh, plan, m)
    &&& yields(f, v.ids[plan[m]], gathered(after, v.deps[plan[m]]), Err::<V, E>(cause))
}

/// The round stopped at the component named `node`, somewhere in the
/// plan, and `settled` lists what had settled before.
pub open spec fn stopped<V, E, F, S>(
    v: GraphView,
    f: F,
    es: Seq<Subscription<S>>,
    before: Seq<Option<V>>,
    after: Seq<Option<V>>,
    origin: int,
    fresh: V,
    plan: Seq<int>,
    node: NodeId,
    cause: E,
    settled: Seq<Settlement<E>>,
) -> bool where F: Fn(NodeId, Vec<Option<&V>>) -> Result<V, E>, S: Fn(NodeId, &V) -> Result<(), E> {
    exists|m: int| #[trigger]
        halted(v, f, before, after, origin, fresh, plan, m, cause) && node == v.ids[plan[m]]
            && reported(v, es, after, plan, m, settled)
}

/// What a round makes of the values `before`, given the graph, the
/// computation, the subscriptions, the origin and its new value: the values
/// `after` and the result `r`.
pub open spec fn is_round<V, E, F, S>(
    v: GraphView,
    f: F,
    es: Seq<Subscription<S>>,
    before: Seq<Option<V>>,
    after: Seq<Option<V>>,
    origin: NodeId,
    fresh: V,
    r: Result<RoundReport<E>, PropagationError<E>>,
) -> bool where F: Fn(NodeId, Vec<Option<&V>>) -> Result<V, E>, S: Fn(NodeId, &V) -> Result<(), E> {
    let o = v.position(origin);
    let p = settling_plan(v, o);
    &&& after.len() == before.len()
    &&& match r {
        Err(PropagationError::NotAnInput(id)) => {
            &&& !v.is_input(origin)
            &&& id == origin
            &&& after == before
        },
        Err(PropagationError::NodeComputationFailed { node, cause, settled }) => {
            &&& v.is_input(origin)
            &&& is_plan(v, o, p)
            &&& stopped(v, f, es, before, after, o, fresh, p, node, cause, settled@)
        },
        Ok(report) => {
            &&& v.is_input(origin)
            &&& is_plan(v, o, p)
            &&& round_prefix(v, f, before, after, o, fresh, p, p.len() as int)
            &&& reported(v, es, after, p, p.len() as int, report.settled@)
        },
    }
}

/// Settling the next component of the plan carries the round one step on.
pub proof fn law_settling_advances<V, E, F: Fn(NodeId, Vec<Option<&V>>) -> Result<V, E>>(
    v: GraphView,
    f: F,
    before: Seq<Option<V>>,
    cur: Seq<Option<V>>,
    origin: int,
    fresh: V,
    p: Seq<int>,
    m: int,
    x: V,
)
    requires
        v.wf(),
        is_plan(v, origin, p),
        0 <= m < p.len(),
        cur.len() == v.ids.len(),
        round_prefix(v, f, before, cur, origin, fresh, p, m),
        settles(v, f, cur, origin, fresh, p[m], x),
    ensures
        round_prefix(v, f, before, cur.update(p[m], Some(x)), origin, fresh, p, m + 1),
        forall|i: int| 0 <= i < m ==> p[i] != p[m],
{
    let k = p[m];
    let next = cur.update(k, Some(x));
    lemma_plan_members(v, origin, p, m);
    assert forall|i: int| 0 <= i <= m implies #[trigger] gathered(next, v.deps[p[i]]) == gathered(
        cur,
        v.deps[p[i]],
    ) by {
        lemma_plan_members(v, origin, p, i);
        assert forall|c: int| 0 <= c < v.deps[p[i]].len() implies gathered(next, v.deps[p[i]])[c]
            == gathered(cur, v.deps[p[i]])[c] by {
            lemma_dependencies_earlier(v, origin, p, i, m, c);
        }
    }
    assert forall|i: int| 0 <= i < m + 1 implies (#[trigger] next[p[i]]) is Some && settles(
        v,
        f,
        next,
        origin,
        fresh,
        p[i],
        next[p[i]]->0,
    ) by {
        lemma_plan_members(v, origin, p, i);
    }
}

/// A round in progress: the plan of the round and how far it has come.
/// The round is driven from outside: whoever holds it asks for the next
/// component, computes its value and hands it in.
pub struct PropagationRound {
    origin: usize,
    steps: Vec<usize>,
    settled: usize,
}

impl PropagationRound {
    /// The position of the input that the round started at.
    pub closed spec fn origin(&self) -> int {
        self.origin as int
    }

    /// The components that the round settles, in settling order.
    pub closed spec fn plan(&self) -> Seq<int> {
        ints(self.steps@)
    }

    /// How many components of the plan have settled.
    pub closed spec fn settled(&self) -> int {
        self.settled as int
    }

    /// The round is a round of the graph `v`: it started at an input, its
    /// plan is the settling plan of that input, and it has not run past
    /// the end of the plan.
    pub open spec fn wf(&self, v: GraphView) -> bool {
        &&& v.is_node(self.origin())
        &&& v.is_input_at(self.origin())
        &&& is_plan(v, self.origin(), self.plan())
        &&& self.plan() == settling_plan(v, self.origin())
        &&& 0 <= self.settled() <= self.plan().len()
    }

    /// Opens a round at `origin`, if that is an input of the graph. The
    /// components to settle are fixed here, the origin first.
    pub fn begin(graph: &ComponentGraph, origin: NodeId) -> (r: Option<PropagationRound>)
        requires
            graph.wf(),
        ensures
            r is Some <==> graph@.is_input(origin),
            r matches Some(round) ==> round.wf(graph@) && round.origin() == graph@.position(origin)
                && round.settled() == 0 && round.plan().len() > 0 && round.plan()[0]
                == round.origin(),
    {
        let o = match graph.index_of(origin) {
            Some(o) => o,
            None => {
                return None;
            },
        };
        if graph.dependencies_at(o).len() != 0 {
            return None;
        }
        let steps = plan(graph, o);
        proof {
            lemma_plan_unique(graph@, o as int, ints(steps@), settling_plan(graph@, o as int));
            law_origin_settles_first(graph@, o as int, ints(steps@));
        }
        Some(PropagationRound { origin: o, steps, settled: 0 })
    }

    /// The component that settles next; none once the round is complete.
    pub fn next(&self) -> (r: Option<usize>)
        ensures
            r is Some <==> self.settled() < self.plan().len(),
            r matches Some(k) ==> k as int == self.plan()[self.settled()],
    {
        if self.settled < self.steps.len() {
            Some(self.steps[self.settled])
        } else {
            None
        }
    }

    /// How many components the round settles in all.
    pub fn len(&self) -> (n: usize)
        ensures
            n == self.plan().len(),
    {
        self.steps.len()
    }

    /// How many components have settled so far.
    pub fn settled_count(&self) -> (n: usize)
        ensures
            n == self.settled(),
    {
        self.settled
    }

    /// The components that settle next and share one level, in settling
    /// order. None of them depends on another, so their values can be
    /// computed side by side from the values as they stand; whatever comes
    /// after them in the plan sits at a higher level and has to wait.
    pub fn batch(&self, graph: &ComponentGraph) -> (r: Vec<usize>)
        requires
            graph.wf(),
            self.wf(graph@),
        ensures
            self.settled() + r@.len() <= self.plan().len(),
            ints(r@) == self.plan().subrange(self.settled(), self.settled() + r@.len()),
            r@.len() == 0 <==> self.settled() == self.plan().len(),
            forall|i: int|
                self.settled() <= i < self.settled() + r@.len() ==> graph@.levels[#[trigger] self.plan()[i]]
                    == graph@.levels[self.plan()[self.settled()]],
            self.settled() + r@.len() < self.plan().len() ==> graph@.levels[self.plan()[self.settled()
                + r@.len()]] > graph@.levels[self.plan()[self.settled()]],
    {
        let mut out: Vec<usize> = Vec::new();
        if self.settled < self.steps.len() {
            proof {
                lemma_plan_members(graph@, self.origin(), self.plan(), self.settled());
            }
            let level = graph.level_at(self.steps[self.settled]);
            let mut i: usize = self.settled;
            let mut more = true;
            while more && i < self.steps.len()
                invariant
                    graph.wf(),
                    self.wf(graph@),
                    self.settled <= i <= self.steps@.len(),
                    self.settled < self.steps@.len(),
                    level == graph@.levels[self.plan()[self.settled()]],
                    out@.len() == i - self.settled,
                    ints(out@) == self.plan().subrange(self.settled(), i as int),
                    forall|j: int|
                        self.settled() <= j < i ==> graph@.levels[#[trigger] self.plan()[j]] == level,
                    !more ==> i < self.steps@.len() && graph@.levels[self.plan()[i as int]] > level,
                    !more ==> i > self.settled,
                decreases self.steps@.len() - i + (if more { 1int } else { 0int }),
            {
                proof {
                    lemma_plan_members(graph@, self.origin(), self.plan(), i as int);
                }
                let k = self.steps[i];
                if graph.level_at(k) == level {
                    out.push(k);
                    assert(ints(out@) =~= self.plan().subrange(self.settled(), i + 1));
                    i = i + 1;
                } else {
                    assert(precedes(graph@.levels, self.plan()[self.settled()], self.plan()[i as int]));
                    more = false;
                }
            }
        }
        out
    }

    /// Records `value` as the value on which the next component of the
    /// plan has settled.
    pub fn settle<V>(&mut self, values: &mut Vec<Option<V>>, value: V)
        requires
            0 <= old(self).settled() < old(self).plan().len(),
            0 <= old(self).plan()[old(self).settled()] < old(values)@.len(),
        ensures
            final(self).origin() == old(self).origin(),
            final(self).plan() == old(self).plan(),
            final(self).settled() == old(self).settled() + 1,
            final(values)@ == old(values)@.update(
                old(self).plan()[old(self).settled()],
                Some(value),
            ),
    {
        assert(self.settled < self.steps.len());
        let k = self.steps[self.settled];
        values.set(k, Some(value));
        self.settled = self.settled + 1;
    }
}

/// The values that the components at the positions `row` hold, borrowed;
/// a component that never settled has none.
pub fn gather<'a, V>(values: &'a Vec<Option<V>>, row: &Vec<usize>) -> (r: Vec<Option<&'a V>>)
    requires
        forall|c: int| 0 <= c < row@.len() ==> (#[trigger] row@[c]) < values@.len(),
    ensures
        r@ == gathered(values@, ints(row@)),
{
    let mut out: Vec<Option<&'a V>> = Vec::new();
    let mut c: usize = 0;
    while c < row.len()
        invariant
            c <= row@.len(),
            out@.len() == c,
            forall|d: int| 0 <= d < row@.len() ==> (#[trigger] row@[d]) < values@.len(),
            forall|d: int|
                0 <= d < c ==> #[trigger] out@[d] == gathered(values@, ints(row@))[d],
        decreases row@.len() - c,
    {
        let d = row[c];
        out.push(values[d].as_ref());
        c = c + 1;
    }
    out
}

/// Hands the settled value `x` of `node` to every subscriber of `node`, in
/// registration order, and notes what each made of it.
pub fn deliver<V, E, S: Fn(NodeId, &V) -> Result<(), E>>(
    es: &Vec<Subscription<S>>,
    node: NodeId,
    x: &V,
) -> (r: Vec<Delivery<E>>)
    requires
        listens::<V, E, S>(es@),
    ensures
        delivered(es@, node, *x, r@, es@.len() as int),
{
    let mut out: Vec<Delivery<E>> = Vec::new();
    let mut j: usize = 0;
    while j < es.len()
        invariant
            j <= es@.len(),
            listens::<V, E, S>(es@),
            delivered(es@, node, *x, out@, j as int),
        decreases es@.len() - j,
    {
        let e = &es[j];
        if e.node == node {
            let ghost before = out@;
            let outcome = (e.callback)(node, x);
            out.push(Delivery { subscription: e.id, outcome });
            assert(out@.drop_last() =~= before);
        }
        j = j + 1;
    }
    out
}

/// What the report of a round says of the component at position `k`, which
/// has just settled: its name and the deliveries of its value.
pub fn settlement_of<V, E, S: Fn(NodeId, &V) -> Result<(), E>>(
    registry: &SubscriptionRegistry<S>,
    node: NodeId,
    values: &Vec<Option<V>>,
    k: usize,
) -> (entry: Settlement<E>)
    requires
        k < values@.len(),
        values@[k as int] is Some,
        listens::<V, E, S>(registry@),
    ensures
        entry.node == node,
        delivered(registry@, node, values@[k as int]->0, entry.deliveries@, registry@.len() as int),
{
    let held: &V = values[k].as_ref().unwrap();
    let deliveries = deliver(registry.entries(), node, held);
    Settlement { node, deliveries }
}

/// The report of a round grows by the component that has just settled.
proof fn lemma_report_grows<V, E, S: Fn(NodeId, &V) -> Result<(), E>>(
    v: GraphView,
    es: Seq<Subscription<S>>,
    origin: int,
    cur: Seq<Option<V>>,
    x: V,
    p: Seq<int>,
    m: int,
    listed: Seq<Settlement<E>>,
    entry: Settlement<E>,
)
    requires
        v.wf(),
        is_plan(v, origin, p),
        0 <= m < p.len(),
        cur.len() == v.len(),
        reported(v, es, cur, p, m, listed),
        entry.node == v.ids[p[m]],
        delivered(es, entry.node, x, entry.deliveries@, es.len() as int),
    ensures
        reported(v, es, cur.update(p[m], Some(x)), p, m + 1, listed.push(entry)),
{
    let next = cur.update(p[m], Some(x));
    let grown = listed.push(entry);
    lemma_plan_members(v, origin, p, m);
    assert forall|i: int| 0 <= i < m + 1 implies (#[trigger] grown[i]).node == v.ids[p[i]]
        && next[p[i]] is Some && delivered(
        es,
        grown[i].node,
        next[p[i]]->0,
        grown[i].deliveries@,
        es.len() as int,
    ) by {
        lemma_plan_members(v, origin, p, i);
        if i < m {
            assert(grown[i] == listed[i]);
        }
    }
}

/// Carries a new value of the input `origin` through the graph.
///
/// The round fails with `NotAnInput`, and changes nothing, unless `origin`
/// names an input component. Otherwise the components that `origin`
/// reaches settle one by one in the order of the settling plan: the origin
/// on `new_value`, every other component on what `compute` yields for the
/// values that its dependencies hold at that moment. Right after a
/// component has settled, its value is handed to each of its subscribers
/// in registration order; what a callback returns does not touch the
/// round. The subscriptions cannot change while the round runs. Where a
/// computation fails, the round stops there with `NodeComputationFailed`,
/// which names the component and the cause and lists what had settled:
/// what settled before keeps its new value, and nothing that comes later
/// in the plan is computed or changed.
pub fn notify<V, E, F, S>(
    graph: &ComponentGraph,
    compute: &F,
    registry: &SubscriptionRegistry<S>,
    values: &mut Vec<Option<V>>,
    origin: NodeId,
    new_value: V,
) -> (r: Result<RoundReport<E>, PropagationError<E>>) where
    F: Fn(NodeId, Vec<Option<&V>>) -> Result<V, E>,
    S: Fn(NodeId, &V) -> Result<(), E>,

    requires
        graph.wf(),
        old(values)@.len() == graph@.len(),
        accepts::<V, E, F>(*compute),
        listens::<V, E, S>(registry@),
    ensures
        is_round(
            graph@,
            *compute,
            registry@,
            old(values)@,
            final(values)@,
            origin,
            new_value,
            r,
        ),
{
    let mut round = match PropagationRound::begin(graph, origin) {
        Some(round) => round,
        None => {
            return Err(PropagationError::NotAnInput(origin));
        },
    };
    let ghost v = graph@;
    let ghost before = values@;
    let ghost o = round.origin();
    let ghost p = round.plan();
    let mut settled: Vec<Settlement<E>> = Vec::new();
    let first = round.next().unwrap();
    round.settle(values, new_value);
    let entry = settlement_of(registry, graph.id_at(first), values, first);
    settled.push(entry);
    let mut step = round.next();
    while step.is_some()
        invariant
            graph.wf(),
            v == graph@,
            before == old(values)@,
            before.len() == v.len(),
            values@.len() == before.len(),
            round.wf(v),
            round.origin() == o,
            round.plan() == p,
            o == v.position(origin),
            v.is_input(origin),
            p[0] == o,
            round.settled() >= 1,
            accepts::<V, E, F>(*compute),
            listens::<V, E, S>(registry@),
            step is Some <==> round.settled() < p.len(),
            step matches Some(k) ==> k as int == p[round.settled()],
            round_prefix(v, *compute, before, values@, o, new_value, p, round.settled()),
            reported(v, registry@, values@, p, round.settled(), settled@),
        decreases p.len() - round.settled(),
    {
        let k = step.unwrap();
        let ghost m = round.settled();
        let ghost cur = values@;
        proof {
            lemma_plan_members(v, o, p, m);
        }
        let node = graph.id_at(k);
        let row = graph.dependencies_at(k);
        proof {
            assert(ints(row@) =~= v.deps[k as int]);
        }
        let inputs = gather(values, row);
        match compute(node, inputs) {
            Ok(x) => {
                proof {
                    law_settling_advances(v, *compute, before, cur, o, new_value, p, m, x);
                }
                round.settle(values, x);
            },
            Err(cause) => {
                proof {
                    assert(halted(v, *compute, before, cur, o, new_value, p, m, cause));
                }
                return Err(PropagationError::NodeComputationFailed { node, cause, settled });
            },
        }
        let entry = settlement_of(registry, node, values, k);
        proof {
            lemma_report_grows(v, registry@, o, cur, values@[k as int]->0, p, m, settled@, entry);
        }
        settled.push(entry);
        step = round.next();
    }
    Ok(RoundReport { settled })
}

} // verus!
