//! The resolved graph: components, edges in both directions and levels.

use vstd::prelude::*;
use crate::descriptor::{Component, NodeId, NodeKind};

verus! {

/// The adjacency rows held by a vector of index lists.
pub open spec fn rows(v: Seq<Vec<usize>>) -> Seq<Seq<int>> {
    Seq::new(v.len(), |k: int| Seq::new(v[k]@.len(), |b: int| v[k]@[b] as int))
}

/// The levels held by a vector of machine integers.
pub open spec fn naturals(v: Seq<usize>) -> Seq<nat> {
    Seq::new(v.len(), |k: int| v[k] as nat)
}

/// The identities found at the positions listed in `row`.
pub open spec fn ids_at(ids: Seq<NodeId>, row: Seq<int>) -> Seq<NodeId> {
    Seq::new(row.len(), |b: int| ids[row[b]])
}

/// Every entry of every row is a position below `n`.
pub open spec fn rows_within(r: Seq<Seq<int>>, n: int) -> bool {
    forall|k: int, b: int| 0 <= k < r.len() && 0 <= b < r[k].len() ==> 0 <= #[trigger] r[k][b] < n
}

/// The rule of levels at position `k`: an input sits at level 0, every
/// other component one above the highest of its dependencies.
pub open spec fn level_rule(deps: Seq<Seq<int>>, levels: Seq<nat>, k: int) -> bool {
    &&& deps[k].len() == 0 ==> levels[k] == 0
    &&& forall|b: int| 0 <= b < deps[k].len() ==> levels[#[trigger] deps[k][b]] < levels[k]
    &&& deps[k].len() > 0 ==> exists|b: int|
        0 <= b < deps[k].len() && levels[#[trigger] deps[k][b]] + 1 == levels[k]
}

/// Component `a` settles before component `b`: it sits at a lower level,
/// or at the same level and was declared earlier.
pub open spec fn precedes(levels: Seq<nat>, a: int, b: int) -> bool {
    levels[a] < levels[b] || (levels[a] == levels[b] && a < b)
}

/// `order` lists every position once, in settling order.
pub open spec fn is_schedule(levels: Seq<nat>, order: Seq<int>) -> bool {
    &&& forall|t: int| 0 <= t < order.len() ==> 0 <= #[trigger] order[t] < levels.len()
    &&& forall|k: int| 0 <= k < levels.len() ==> #[trigger] order.contains(k)
    &&& forall|s: int, t: int|
        0 <= s < t < order.len() ==> precedes(levels, #[trigger] order[s], #[trigger] order[t])
}

/// The positions held by a vector of machine integers.
pub open spec fn ints(v: Seq<usize>) -> Seq<int> {
    Seq::new(v.len(), |i: int| v[i] as int)
}

/// The mathematical model of a graph. Components are numbered in
/// declaration order; edges and levels speak of these positions.
pub struct GraphView {
    /// The identity of each component.
    pub ids: Seq<NodeId>,
    /// For each component the positions of its dependencies, as declared.
    pub deps: Seq<Seq<int>>,
    /// For each component the positions of the components that depend on it.
    pub subs: Seq<Seq<int>>,
    /// The topological level of each component.
    pub levels: Seq<nat>,
    /// All positions by ascending level, equal levels in declaration order.
    pub order: Seq<int>,
}

impl GraphView {
    /// The number of components.
    pub open spec fn len(self) -> nat {
        self.ids.len()
    }

    /// `k` is the position of a component.
    pub open spec fn is_node(self, k: int) -> bool {
        0 <= k < self.ids.len()
    }

    /// All parts have one entry per component and edges stay inside the graph.
    pub open spec fn shaped(self) -> bool {
        &&& self.deps.len() == self.ids.len()
        &&& self.subs.len() == self.ids.len()
        &&& self.levels.len() == self.ids.len()
        &&& rows_within(self.deps, self.ids.len() as int)
        &&& rows_within(self.subs, self.ids.len() as int)
    }

    /// No two components share an identity.
    pub open spec fn ids_distinct(self) -> bool {
        forall|i: int, j: int|
            0 <= i < j < self.ids.len() ==> #[trigger] self.ids[i] != #[trigger] self.ids[j]
    }

    /// No component names a dependency twice.
    pub open spec fn deps_distinct(self) -> bool {
        forall|k: int| self.is_node(k) ==> (#[trigger] self.deps[k]).no_duplicates()
    }

    /// Subscribers are listed in declaration order, each once.
    pub open spec fn subs_ascending(self) -> bool {
        forall|d: int, a: int, b: int|
            self.is_node(d) && 0 <= a < b < self.subs[d].len() ==> #[trigger] self.subs[d][a]
                < #[trigger] self.subs[d][b]
    }

    /// The subscriber relation is the inverse of the dependency relation.
    pub open spec fn inverse(self) -> bool {
        forall|k: int, d: int|
            self.is_node(k) && self.is_node(d) ==> (#[trigger] self.deps[k].contains(d)
                <==> #[trigger] self.subs[d].contains(k))
    }

    /// The level of component `k` follows the rule.
    pub open spec fn level_rule(self, k: int) -> bool {
        level_rule(self.deps, self.levels, k)
    }

    /// Every level follows the rule.
    pub open spec fn levelled(self) -> bool {
        forall|k: int| self.is_node(k) ==> #[trigger] self.level_rule(k)
    }

    /// The invariant of every graph.
    pub open spec fn wf(self) -> bool {
        &&& self.shaped()
        &&& self.ids_distinct()
        &&& self.deps_distinct()
        &&& self.subs_ascending()
        &&& self.inverse()
        &&& self.levelled()
        &&& is_schedule(self.levels, self.order)
    }

    /// The graph has a component with this identity.
    pub open spec fn contains(self, id: NodeId) -> bool {
        self.ids.contains(id)
    }

    /// The position of the component with this identity.
    pub open spec fn position(self, id: NodeId) -> int {
        self.ids.index_of(id)
    }

    /// Component `k` is an input.
    pub open spec fn is_input_at(self, k: int) -> bool {
        self.deps[k].len() == 0
    }

    /// `id` names an input component of the graph.
    pub open spec fn is_input(self, id: NodeId) -> bool {
        self.contains(id) && self.is_input_at(self.position(id))
    }

    /// The identities of the dependencies of component `k`, as declared.
    pub open spec fn dependency_ids(self, k: int) -> Seq<NodeId> {
        ids_at(self.ids, self.deps[k])
    }

    /// The identities of the subscribers of component `k`.
    pub open spec fn subscriber_ids(self, k: int) -> Seq<NodeId> {
        ids_at(self.ids, self.subs[k])
    }

    /// Component `a` depends directly on component `b`.
    pub open spec fn edge(self, a: NodeId, b: NodeId) -> bool {
        exists|k: int, d: int|
            self.is_node(k) && self.is_node(d) && self.ids[k] == a && self.ids[d] == b
                && #[trigger] self.deps[k].contains(d)
    }

    /// The topological level of the component named `id`.
    pub open spec fn level_of(self, id: NodeId) -> nat {
        self.levels[self.position(id)]
    }

    /// The identities of the components of the graph.
    pub open spec fn node_ids(self) -> Set<NodeId> {
        Set::new(|id: NodeId| self.contains(id))
    }

    /// The components that the component named `id` depends on.
    pub open spec fn dependencies_of(self, id: NodeId) -> Set<NodeId> {
        Set::new(|b: NodeId| self.edge(id, b))
    }

    /// The components that depend on the component named `id`.
    pub open spec fn subscribers_of(self, id: NodeId) -> Set<NodeId> {
        Set::new(|a: NodeId| self.edge(a, id))
    }

    /// The level of every component, by identity.
    pub open spec fn topo_levels(self) -> Map<NodeId, nat> {
        Map::new(|id: NodeId| self.contains(id), |id: NodeId| self.level_of(id))
    }
}

/// A validated dependency graph. It is built once from a fixed set of
/// descriptors and never changes afterwards.
pub struct ComponentGraph {
    components: Vec<Component>,
    dep_idx: Vec<Vec<usize>>,
    sub_idx: Vec<Vec<usize>>,
    levels: Vec<usize>,
    order: Vec<usize>,
}

/// The identities of a list of components.
pub open spec fn identities(cs: Seq<Component>) -> Seq<NodeId> {
    Seq::new(cs.len(), |k: int| cs[k].id)
}

/// Each component lists by identity what the rows list by position.
pub open spec fn labelled(cs: Seq<Component>, v: GraphView) -> bool {
    &&& cs.len() == v.ids.len()
    &&& forall|k: int|
        0 <= k < cs.len() ==> (#[trigger] cs[k]).id == v.ids[k] && cs[k].dependencies@
            == v.dependency_ids(k) && cs[k].subscribers@ == v.subscriber_ids(k)
}

impl View for ComponentGraph {
    type V = GraphView;

    closed spec fn view(&self) -> GraphView {
        GraphView {
            ids: identities(self.components@),
            deps: rows(self.dep_idx@),
            subs: rows(self.sub_idx@),
            levels: naturals(self.levels@),
            order: ints(self.order@),
        }
    }
}

impl ComponentGraph {
    /// The components held by the graph, in declaration order.
    pub closed spec fn nodes(&self) -> Seq<Component> {
        self.components@
    }

    /// The invariant of every graph value.
    pub open spec fn wf(&self) -> bool {
        &&& self@.wf()
        &&& labelled(self.nodes(), self@)
    }

    /// Puts a graph together from parts that already satisfy the invariant.
    pub(crate) fn from_parts(
        components: Vec<Component>,
        dep_idx: Vec<Vec<usize>>,
        sub_idx: Vec<Vec<usize>>,
        levels: Vec<usize>,
        order: Vec<usize>,
    ) -> (g: ComponentGraph)
        requires
            (GraphView {
                ids: identities(components@),
                deps: rows(dep_idx@),
                subs: rows(sub_idx@),
                levels: naturals(levels@),
                order: ints(order@),
            }).wf(),
            labelled(
                components@,
                (GraphView {
                    ids: identities(components@),
                    deps: rows(dep_idx@),
                    subs: rows(sub_idx@),
                    levels: naturals(levels@),
                    order: ints(order@),
                }),
            ),
        ensures
            g.wf(),
            g@ == (GraphView {
                ids: identities(components@),
                deps: rows(dep_idx@),
                subs: rows(sub_idx@),
                levels: naturals(levels@),
                order: ints(order@),
            }),
            g.nodes() == components@,
    {
        ComponentGraph { components, dep_idx, sub_idx, levels, order }
    }

    /// The graph without components.
    pub fn new() -> (g: ComponentGraph)
        ensures
            g.wf(),
            g@.len() == 0,
    {
        ComponentGraph {
            components: Vec::new(),
            dep_idx: Vec::new(),
            sub_idx: Vec::new(),
            levels: Vec::new(),
            order: Vec::new(),
        }
    }

    /// The number of components.
    pub fn len(&self) -> (n: usize)
        requires
            self.wf(),
        ensures
            n == self@.len(),
    {
        self.components.len()
    }

    /// The position of the component named `id`, if the graph has one.
    pub fn index_of(&self, id: NodeId) -> (r: Option<usize>)
        requires
            self.wf(),
        ensures
            match r {
                Some(k) => self@.is_node(k as int) && self@.ids[k as int] == id && self@.contains(id)
                    && self@.position(id) == k,
                None => !self@.contains(id),
            },
    {
        let mut k: usize = 0;
        while k < self.components.len()
            invariant
                self.wf(),
                k <= self.components@.len(),
                forall|j: int| 0 <= j < k ==> (#[trigger] self@.ids[j]) != id,
            decreases self.components@.len() - k,
        {
            if self.components[k].id == id {
                return Some(k);
            }
            k = k + 1;
        }
        None
    }

    /// Whether the graph has a component named `id`.
    pub fn contains(&self, id: NodeId) -> (b: bool)
        requires
            self.wf(),
        ensures
            b == self@.contains(id),
    {
        self.index_of(id).is_some()
    }

    /// The component named `id`.
    pub fn component(&self, id: NodeId) -> (r: Option<&Component>)
        requires
            self.wf(),
        ensures
            match r {
                Some(c) => self@.contains(id) && *c == self.nodes()[self@.position(id)] && c.id == id
                    && c.dependencies@ == self@.dependency_ids(self@.position(id))
                    && c.subscribers@ == self@.subscriber_ids(self@.position(id)),
                None => !self@.contains(id),
            },
    {
        match self.index_of(id) {
            Some(k) => Some(&self.components[k]),
            None => None,
        }
    }

    /// Whether `id` names an input component of this graph.
    pub fn is_input(&self, id: NodeId) -> (b: bool)
        requires
            self.wf(),
        ensures
            b == self@.is_input(id),
    {
        match self.index_of(id) {
            Some(k) => self.dep_idx[k].len() == 0,
            None => false,
        }
    }

    /// The kind of the component named `id`.
    pub fn kind(&self, id: NodeId) -> (r: Option<NodeKind>)
        requires
            self.wf(),
        ensures
            match r {
                Some(kind) => self@.contains(id) && (kind == NodeKind::Input <==> self@.is_input(id)),
                None => !self@.contains(id),
            },
    {
        match self.index_of(id) {
            Some(k) => if self.dep_idx[k].len() == 0 {
                Some(NodeKind::Input)
            } else {
                Some(NodeKind::Derived)
            },
            None => None,
        }
    }

    /// The topological level of the component named `id`.
    pub fn topo_level(&self, id: NodeId) -> (r: Option<usize>)
        requires
            self.wf(),
        ensures
            match r {
                Some(level) => self@.contains(id) && level == self@.level_of(id),
                None => !self@.contains(id),
            },
    {
        match self.index_of(id) {
            Some(k) => Some(self.levels[k]),
            None => None,
        }
    }

    /// The identity of component `k`.
    pub fn id_at(&self, k: usize) -> (id: NodeId)
        requires
            self.wf(),
            self@.is_node(k as int),
        ensures
            id == self@.ids[k as int],
    {
        self.components[k].id
    }

    /// The positions of the dependencies of component `k`.
    pub fn dependencies_at(&self, k: usize) -> (r: &Vec<usize>)
        requires
            self.wf(),
            self@.is_node(k as int),
        ensures
            r@.len() == self@.deps[k as int].len(),
            forall|b: int| 0 <= b < r@.len() ==> (#[trigger] r@[b]) as int == self@.deps[k as int][b],
    {
        &self.dep_idx[k]
    }

    /// The positions of the subscribers of component `k`.
    pub fn subscribers_at(&self, k: usize) -> (r: &Vec<usize>)
        requires
            self.wf(),
            self@.is_node(k as int),
        ensures
            r@.len() == self@.subs[k as int].len(),
            forall|b: int| 0 <= b < r@.len() ==> (#[trigger] r@[b]) as int == self@.subs[k as int][b],
    {
        &self.sub_idx[k]
    }

    /// All positions in settling order.
    pub fn settling_order(&self) -> (r: &Vec<usize>)
        requires
            self.wf(),
        ensures
            ints(r@) == self@.order,
    {
        &self.order
    }

    /// The topological level of component `k`.
    pub fn level_at(&self, k: usize) -> (level: usize)
        requires
            self.wf(),
            self@.is_node(k as int),
        ensures
            level == self@.levels[k as int],
    {
        self.levels[k]
    }
}

/// In a graph with distinct identities the position of an identity is the
/// one place where it stands.
pub proof fn lemma_position(v: GraphView, k: int)
    requires
        v.ids_distinct(),
        v.is_node(k),
    ensures
        v.contains(v.ids[k]),
        v.position(v.ids[k]) == k,
{
}

} // verus!
