//! The propagation engine: one graph with the values its components have
//! settled on, the computation that derives them, and the subscriptions.

use vstd::prelude::*;
use crate::descriptor::NodeId;
use crate::error::PropagationError;
use crate::graph::ComponentGraph;
use crate::registry::{holds, without, Subscription, SubscriptionId, SubscriptionRegistry};
use crate::report::RoundReport;
use crate::round::{accepts, is_round, listens, notify};

verus! {

/// Owns a graph and drives its rounds. Rounds run one after the other:
/// an update settles completely, or stops at a failure, before the next
/// one is accepted.
pub struct PropagationEngine<V, F, S> {
    graph: ComponentGraph,
    compute: F,
    registry: SubscriptionRegistry<S>,
    values: Vec<Option<V>>,
}

impl<V, E, F, S> PropagationEngine<V, F, S> where
    F: Fn(NodeId, Vec<Option<&V>>) -> Result<V, E>,
    S: Fn(NodeId, &V) -> Result<(), E>,
 {
    /// The graph that the engine drives.
    pub closed spec fn graph(&self) -> ComponentGraph {
        self.graph
    }

    /// The computation that derives the values.
    pub closed spec fn computation(&self) -> F {
        self.compute
    }

    /// The value that each component holds; none before it first settles.
    pub closed spec fn values(&self) -> Seq<Option<V>> {
        self.values@
    }

    /// The subscriptions in registration order.
    pub closed spec fn subscriptions(&self) -> Seq<Subscription<S>> {
        self.registry@
    }

    /// How many subscription handles have been given out.
    pub closed spec fn issued(&self) -> nat {
        self.registry.issued()
    }

    /// The registry of the engine is in order.
    pub closed spec fn registered(&self) -> bool {
        self.registry.wf()
    }

    /// The invariant of every engine.
    pub open spec fn wf(&self) -> bool {
        &&& self.graph().wf()
        &&& self.values().len() == self.graph()@.len()
        &&& accepts::<V, E, F>(self.computation())
        &&& listens::<V, E, S>(self.subscriptions())
        &&& self.registered()
    }

    /// An engine for `graph` in which no component has a value yet and
    /// nobody has subscribed.
    pub fn new(graph: ComponentGraph, compute: F) -> (engine: Self)
        requires
            graph.wf(),
            accepts::<V, E, F>(compute),
        ensures
            engine.wf(),
            engine.graph() == graph,
            engine.computation() == compute,
            engine.subscriptions().len() == 0,
            engine.issued() == 0,
            engine.values().len() == graph@.len(),
            forall|k: int| 0 <= k < graph@.len() ==> (#[trigger] engine.values()[k]) is None,
    {
        let n = graph.len();
        let mut values: Vec<Option<V>> = Vec::new();
        let mut i: usize = 0;
        while i < n
            invariant
                i <= n,
                values@.len() == i,
                forall|k: int| 0 <= k < i ==> (#[trigger] values@[k]) is None,
            decreases n - i,
        {
            values.push(None);
            i = i + 1;
        }
        PropagationEngine { graph, compute, registry: SubscriptionRegistry::new(), values }
    }

    /// The graph that the engine drives.
    pub fn component_graph(&self) -> (g: &ComponentGraph)
        ensures
            *g == self.graph(),
    {
        &self.graph
    }

    /// Pushes a new value into the input component `node_id` and runs the
    /// round that carries it through the graph.
    pub fn update(&mut self, node_id: NodeId, value: V) -> (r: Result<
        RoundReport<E>,
        PropagationError<E>,
    >)
        requires
            old(self).wf(),
        ensures
            final(self).wf(),
            final(self).graph() == old(self).graph(),
            final(self).computation() == old(self).computation(),
            final(self).subscriptions() == old(self).subscriptions(),
            final(self).issued() == old(self).issued(),
            is_round(
                old(self).graph()@,
                old(self).computation(),
                old(self).subscriptions(),
                old(self).values(),
                final(self).values(),
                node_id,
                value,
                r,
            ),
    {
        notify(&self.graph, &self.compute, &self.registry, &mut self.values, node_id, value)
    }

    /// Registers `callback` for the values that `node_id` settles on. It
    /// is called once in every later round in which the component settles,
    /// after the callbacks registered before it.
    pub fn subscribe(&mut self, node_id: NodeId, callback: S) -> (id: SubscriptionId)
        requires
            old(self).wf(),
            old(self).issued() < u64::MAX,
            forall|node: NodeId, x: &V| call_requires(callback, (node, x)),
        ensures
            final(self).wf(),
            final(self).graph() == old(self).graph(),
            final(self).computation() == old(self).computation(),
            final(self).values() == old(self).values(),
            id.0 == old(self).issued(),
            final(self).issued() == old(self).issued() + 1,
            final(self).subscriptions() == old(self).subscriptions().push(
                (Subscription { id, node: node_id, callback }),
            ),
    {
        let id = self.registry.subscribe(node_id, callback);
        id
    }

    /// Takes the subscription with handle `id` back. Where there is none,
    /// nothing changes.
    pub fn unsubscribe(&mut self, id: SubscriptionId) -> (removed: bool)
        requires
            old(self).wf(),
        ensures
            final(self).wf(),
            final(self).graph() == old(self).graph(),
            final(self).computation() == old(self).computation(),
            final(self).values() == old(self).values(),
            final(self).issued() == old(self).issued(),
            removed <==> holds(old(self).subscriptions(), id),
            final(self).subscriptions() == without(old(self).subscriptions(), id),
            !holds(final(self).subscriptions(), id),
    {
        let removed = self.registry.unsubscribe(id);
        removed
    }
}

} // verus!
